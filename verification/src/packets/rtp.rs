//! The fixed RTP header and the state of a sending session.
//!
//! ```text
//!  0                   1                   2                   3
//!  0 1 2 3 4 5 6 7 8 9 0 1 2 3 4 5 6 7 8 9 0 1 2 3 4 5 6 7 8 9 0 1
//! +-+-+-+-+-+-+-+-+-+-+-+-+-+-+-+-+-+-+-+-+-+-+-+-+-+-+-+-+-+-+-+-+
//! |V=2|P|X|  CC   |M|     PT      |       sequence number         |
//! +-+-+-+-+-+-+-+-+-+-+-+-+-+-+-+-+-+-+-+-+-+-+-+-+-+-+-+-+-+-+-+-+
//! |                           timestamp                           |
//! +-+-+-+-+-+-+-+-+-+-+-+-+-+-+-+-+-+-+-+-+-+-+-+-+-+-+-+-+-+-+-+-+
//! |           synchronization source (SSRC) identifier            |
//! +=+=+=+=+=+=+=+=+=+=+=+=+=+=+=+=+=+=+=+=+=+=+=+=+=+=+=+=+=+=+=+=+
//! ```
//!
//! The CSRC list is not used: the count is written as zero and ignored
//! when read.

use crate::address::SocketAddress;
use crate::buffer::be16;
use crate::buffer::be32;
use crate::buffer::bytes_mut_seq;
use crate::buffer::from_be16;
use crate::buffer::from_be32;
use crate::buffer::get_u16;
use crate::buffer::get_u32;
use crate::buffer::get_u8;
use crate::buffer::lemma_be16_roundtrip;
use crate::buffer::lemma_be32_roundtrip;
use crate::buffer::mut_as_slice;
use crate::buffer::put_u16;
use crate::buffer::put_u32;
use crate::buffer::put_u8;
use crate::buffer::with_capacity;
use crate::error::RtpError;
use bytes::BytesMut;
use rand::RngCore;
use vstd::prelude::*;

verus! {

/// Length of the fixed RTP header on the wire.
pub const RTP_HEADER_LENGTH: usize = 12;

/// The fixed RTP header.
#[derive(Clone, Copy, Debug, PartialEq, Eq, Structural)]
pub struct RTPHeader {
    pub version: u8,
    pub padding: bool,
    pub extension: bool,
    pub marker: bool,
    pub payload_type: u8,
    pub sequence_number: u16,
    pub timestamp: u32,
    pub ssrc: u32,
}

impl RTPHeader {
    /// A header that the wire format can carry: version 2 and a payload
    /// type of seven bits.
    pub open spec fn is_valid(self) -> bool {
        self.version == 2 && self.payload_type < 0x80
    }

    /// The first octet: version 2 in the top two bits, then the padding and
    /// extension flags, then a CSRC count of zero.
    pub open spec fn first_octet(self) -> u8 {
        (0x80 + (if self.padding { 0x20int } else { 0 }) + (if self.extension { 0x10int } else { 0 })) as u8
    }

    /// The second octet: the marker in the top bit over the payload type.
    pub open spec fn second_octet(self) -> u8 {
        if self.marker && self.payload_type < 0x80 {
            (self.payload_type + 0x80) as u8
        } else {
            self.payload_type
        }
    }

    /// The twelve octets of the header on the wire.
    pub open spec fn wire(self) -> Seq<u8> {
        seq![self.first_octet(), self.second_octet()] + be16(self.sequence_number) + be32(
            self.timestamp,
        ) + be32(self.ssrc)
    }

    /// The header that the first twelve octets of `s` spell.
    pub open spec fn parse(s: Seq<u8>) -> RTPHeader
        recommends
            s.len() >= 12,
    {
        RTPHeader {
            version: s[0] / 0x40,
            padding: (s[0] / 0x20) % 2 == 1,
            extension: (s[0] / 0x10) % 2 == 1,
            marker: s[1] >= 0x80,
            payload_type: s[1] % 0x80,
            sequence_number: from_be16(s.skip(2)),
            timestamp: from_be32(s.skip(4)),
            ssrc: from_be32(s.skip(8)),
        }
    }

    /// Writes the header in its wire format. The version written is always 2.
    pub fn serialize(&self) -> (buf: BytesMut)
        ensures
            bytes_mut_seq(buf) == self.wire(),
            bytes_mut_seq(buf).len() == 12,
    {
        let mut buf = with_capacity(64);
        let mut b0: u8 = 2 << 6;
        if self.padding {
            b0 = b0 | (1 << 5);
        }
        if self.extension {
            b0 = b0 | (1 << 4);
        }
        assert(b0 == self.first_octet()) by {
            assert(2u8 << 6 == 0x80) by (bit_vector);
            assert(0x80u8 | (1u8 << 5) == 0xa0) by (bit_vector);
            assert(0x80u8 | (1u8 << 4) == 0x90) by (bit_vector);
            assert(0xa0u8 | (1u8 << 4) == 0xb0) by (bit_vector);
        }
        put_u8(&mut buf, b0);
        let mut b1: u8 = self.payload_type;
        if self.marker {
            b1 = b1 | (1 << 7);
        }
        assert(b1 == self.second_octet()) by {
            let pt = self.payload_type;
            assert(pt < 0x80 ==> pt | (1u8 << 7) == pt + 0x80) by (bit_vector);
            assert(pt >= 0x80 ==> pt | (1u8 << 7) == pt) by (bit_vector);
        }
        put_u8(&mut buf, b1);
        put_u16(&mut buf, self.sequence_number);
        put_u32(&mut buf, self.timestamp);
        put_u32(&mut buf, self.ssrc);
        assert(bytes_mut_seq(buf) =~= self.wire());
        buf
    }

    /// Reads a header off the front of `packet`, leaving the payload behind.
    /// A buffer of fewer than twelve octets is rejected and left as it was.
    pub fn deserialize(packet: &mut BytesMut) -> (res: Result<RTPHeader, RtpError>)
        ensures
            match res {
                Ok(header) => bytes_mut_seq(*old(packet)).len() >= 12 && header == RTPHeader::parse(
                    bytes_mut_seq(*old(packet)),
                ) && bytes_mut_seq(*final(packet)) == bytes_mut_seq(*old(packet)).skip(12),
                Err(e) => bytes_mut_seq(*old(packet)).len() < 12 && e == RtpError::MalformedHeader
                    && bytes_mut_seq(*final(packet)) == bytes_mut_seq(*old(packet)),
            },
    {
        if mut_as_slice(packet).len() < RTP_HEADER_LENGTH {
            return Err(RtpError::MalformedHeader);
        }
        let ghost s = bytes_mut_seq(*packet);
        let b0 = get_u8(packet);
        let version = b0 >> 6 & 0x3;
        let padding = (b0 >> 5 & 0x1) > 0;
        let extension = (b0 >> 4 & 0x1) > 0;
        let b1 = get_u8(packet);
        let marker = (b1 >> 7 & 0x1) > 0;
        let payload_type = b1 & 0x7F;
        assert(bytes_mut_seq(*packet) =~= s.skip(2));
        let sequence_number = get_u16(packet);
        assert(bytes_mut_seq(*packet) =~= s.skip(4));
        let timestamp = get_u32(packet);
        assert(bytes_mut_seq(*packet) =~= s.skip(8));
        let ssrc = get_u32(packet);
        assert(bytes_mut_seq(*packet) =~= s.skip(12));
        proof {
            assert(b0 >> 6 & 0x3 == b0 / 0x40) by (bit_vector);
            assert(((b0 >> 5 & 0x1) > 0) == ((b0 / 0x20) % 2 == 1)) by (bit_vector);
            assert(((b0 >> 4 & 0x1) > 0) == ((b0 / 0x10) % 2 == 1)) by (bit_vector);
            assert(((b1 >> 7 & 0x1) > 0) == (b1 >= 0x80)) by (bit_vector);
            assert(b1 & 0x7F == b1 % 0x80) by (bit_vector);
        }
        Ok(
            RTPHeader {
                version,
                padding,
                extension,
                marker,
                payload_type,
                sequence_number,
                timestamp,
                ssrc,
            },
        )
    }
}

/// A valid header survives the trip over the wire: reading what
/// `serialize` wrote gives the header back.
pub proof fn lemma_header_roundtrip(h: RTPHeader)
    requires
        h.is_valid(),
    ensures
        h.wire().len() == 12,
        RTPHeader::parse(h.wire()) == h,
{
    let w = h.wire();
    lemma_be16_roundtrip(h.sequence_number);
    lemma_be32_roundtrip(h.timestamp);
    lemma_be32_roundtrip(h.ssrc);
    assert(w.skip(2).take(2) =~= be16(h.sequence_number));
    assert(w.skip(4).take(4) =~= be32(h.timestamp));
    assert(w.skip(8) =~= be32(h.ssrc));
    assert(from_be16(w.skip(2)) == from_be16(be16(h.sequence_number)));
    assert(from_be32(w.skip(4)) == from_be32(be32(h.timestamp)));
}

/// A valid header is read back from the front of any packet that starts
/// with its wire format, whatever payload follows.
pub proof fn lemma_header_of_packet(h: RTPHeader, payload: Seq<u8>)
    requires
        h.is_valid(),
    ensures
        RTPHeader::parse(h.wire() + payload) == h,
        (h.wire() + payload).skip(12) == payload,
{
    let w = h.wire();
    let p = w + payload;
    lemma_header_roundtrip(h);
    assert(p[0] == w[0] && p[1] == w[1]);
    assert(p.skip(2)[0] == w.skip(2)[0] && p.skip(2)[1] == w.skip(2)[1]);
    assert(p.skip(4)[0] == w.skip(4)[0] && p.skip(4)[1] == w.skip(4)[1] && p.skip(4)[2] == w.skip(
        4,
    )[2] && p.skip(4)[3] == w.skip(4)[3]);
    assert(p.skip(8)[0] == w.skip(8)[0] && p.skip(8)[1] == w.skip(8)[1] && p.skip(8)[2] == w.skip(
        8,
    )[2] && p.skip(8)[3] == w.skip(8)[3]);
    assert(p.skip(12) =~= payload);
}

/// The state of one outgoing stream: the source identifier, the sequence
/// number of the packet sent last, the media timestamp of the frame being
/// sent and the number of clock ticks between frames.
pub struct RTPSession {
    pub current_sequence_num: u16,
    pub timestamp: u32,
    pub increment: u32,
    pub ssrc: u32,
    pub local_addr: SocketAddress,
    pub rtcp_addr: SocketAddress,
}

/// `rand::rng` and `RngCore::next_u32`: a number drawn from the thread's
/// generator. Nothing is known of the value.
#[verifier::external_body]
fn random_u32() -> u32 {
    rand::rng().next_u32()
}

impl RTPSession {
    /// The header that the session hands out as its `k`-th next one, `k`
    /// counted from zero, while the timestamp stays where it is.
    pub open spec fn header_at(self, k: int, marker: bool) -> RTPHeader {
        RTPHeader {
            version: 2,
            padding: false,
            extension: false,
            marker,
            payload_type: 0,
            sequence_number: ((self.current_sequence_num + 1 + k) % 0x1_0000) as u16,
            timestamp: self.timestamp,
            ssrc: self.ssrc,
        }
    }

    /// The session after it has handed out `n` headers.
    pub open spec fn advanced(self, n: int) -> RTPSession {
        RTPSession {
            current_sequence_num: ((self.current_sequence_num + n) % 0x1_0000) as u16,
            ..self
        }
    }

    /// The session after a frame has been sent: the timestamp has moved on
    /// by one increment, wrapping.
    pub open spec fn ticked(self) -> RTPSession {
        RTPSession {
            timestamp: ((self.timestamp + self.increment) % 0x1_0000_0000) as u32,
            ..self
        }
    }

    /// A session that starts at sequence number 0 and timestamp 0, with a
    /// source identifier drawn at random.
    pub fn new(increment: u32, local_addr: SocketAddress, rtcp_addr: SocketAddress) -> (session:
        RTPSession)
        ensures
            session.current_sequence_num == 0,
            session.timestamp == 0,
            session.increment == increment,
            session.local_addr == local_addr,
            session.rtcp_addr == rtcp_addr,
    {
        RTPSession {
            current_sequence_num: 0,
            timestamp: 0,
            increment,
            ssrc: random_u32(),
            local_addr,
            rtcp_addr,
        }
    }

    /// Moves the timestamp on by one increment, wrapping. Called once per
    /// frame, after the frame's packets have been handed out.
    pub fn next_packet(&mut self)
        ensures
            *final(self) == old(self).ticked(),
    {
        self.timestamp = self.timestamp.wrapping_add(self.increment);
    }

    /// Moves the sequence number on by one, wrapping, and returns the header
    /// of the next packet: the new sequence number, the current timestamp,
    /// the session's source identifier and the given marker.
    pub fn get_packet(&mut self, is_last_unit: bool) -> (header: RTPHeader)
        ensures
            header == old(self).header_at(0, is_last_unit),
            header.is_valid(),
            *final(self) == old(self).advanced(1),
    {
        self.current_sequence_num = self.current_sequence_num.wrapping_add(1);
        RTPHeader {
            version: 2,
            padding: false,
            extension: false,
            marker: is_last_unit,
            payload_type: 0,
            sequence_number: self.current_sequence_num,
            timestamp: self.timestamp,
            ssrc: self.ssrc,
        }
    }
}

} // verus!
