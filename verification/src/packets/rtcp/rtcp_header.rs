//! The header that every RTCP packet starts with.
//!
//! ```text
//!  0                   1                   2                   3
//!  0 1 2 3 4 5 6 7 8 9 0 1 2 3 4 5 6 7 8 9 0 1 2 3 4 5 6 7 8 9 0 1
//! +-+-+-+-+-+-+-+-+-+-+-+-+-+-+-+-+-+-+-+-+-+-+-+-+-+-+-+-+-+-+-+-+
//! |V=2|P|    RC   |      PT       |             length            |
//! +-+-+-+-+-+-+-+-+-+-+-+-+-+-+-+-+-+-+-+-+-+-+-+-+-+-+-+-+-+-+-+-+
//! ```

use crate::buffer::be16;
use crate::buffer::bytes_mut_seq;
use crate::buffer::from_be16;
use crate::buffer::get_u16;
use crate::buffer::get_u8;
use crate::buffer::lemma_be16_roundtrip;
use crate::buffer::mut_as_slice;
use crate::buffer::put_u16;
use crate::buffer::put_u8;
use crate::buffer::with_capacity;
use bytes::BytesMut;
use vstd::prelude::*;

verus! {

/// Length of the RTCP header on the wire.
pub const RTCP_HEADER_LENGTH: usize = 4;

/// The kind of an RTCP packet.
#[derive(Debug, Copy, Clone, PartialEq, Eq, Structural)]
pub enum PacketType {
    Unsupported,
    /// RFC 3550, 6.4.1
    SenderReport,
    /// RFC 3550, 6.4.2
    ReceiverReport,
    /// RFC 3550, 6.5
    SourceDescription,
    /// RFC 3550, 6.6
    Goodbye,
    /// RFC 3550, 6.7
    ApplicationDefined,
    /// RFC 4585
    TransportSpecificFeedback,
    /// RFC 4585, 6.3
    PayloadSpecificFeedback,
    /// RFC 3611
    ExtendedReport,
}

impl PacketType {
    /// The octet that stands for the kind on the wire: 200 to 207 for the
    /// kinds that are known, 0 for the rest.
    pub open spec fn spec_code(self) -> u8 {
        match self {
            PacketType::Unsupported => 0,
            PacketType::SenderReport => 200,
            PacketType::ReceiverReport => 201,
            PacketType::SourceDescription => 202,
            PacketType::Goodbye => 203,
            PacketType::ApplicationDefined => 204,
            PacketType::TransportSpecificFeedback => 205,
            PacketType::PayloadSpecificFeedback => 206,
            PacketType::ExtendedReport => 207,
        }
    }

    /// The kind that an octet stands for.
    pub open spec fn of(b: u8) -> PacketType {
        if b == 200 {
            PacketType::SenderReport
        } else if b == 201 {
            PacketType::ReceiverReport
        } else if b == 202 {
            PacketType::SourceDescription
        } else if b == 203 {
            PacketType::Goodbye
        } else if b == 204 {
            PacketType::ApplicationDefined
        } else if b == 205 {
            PacketType::TransportSpecificFeedback
        } else if b == 206 {
            PacketType::PayloadSpecificFeedback
        } else if b == 207 {
            PacketType::ExtendedReport
        } else {
            PacketType::Unsupported
        }
    }

    /// The octet that stands for the kind on the wire.
    #[verifier::when_used_as_spec(spec_code)]
    pub fn code(self) -> (b: u8)
        ensures
            b == self.spec_code(),
            PacketType::of(b) == self,
    {
        match self {
            PacketType::Unsupported => 0,
            PacketType::SenderReport => 200,
            PacketType::ReceiverReport => 201,
            PacketType::SourceDescription => 202,
            PacketType::Goodbye => 203,
            PacketType::ApplicationDefined => 204,
            PacketType::TransportSpecificFeedback => 205,
            PacketType::PayloadSpecificFeedback => 206,
            PacketType::ExtendedReport => 207,
        }
    }

    /// The kind that an octet stands for.
    pub fn from(b: u8) -> (kind: PacketType)
        ensures
            kind == PacketType::of(b),
    {
        match b {
            200 => PacketType::SenderReport,
            201 => PacketType::ReceiverReport,
            202 => PacketType::SourceDescription,
            203 => PacketType::Goodbye,
            204 => PacketType::ApplicationDefined,
            205 => PacketType::TransportSpecificFeedback,
            206 => PacketType::PayloadSpecificFeedback,
            207 => PacketType::ExtendedReport,
            _ => PacketType::Unsupported,
        }
    }
}

/// The header of an RTCP packet.
#[derive(Debug, Copy, Clone, PartialEq, Eq, Structural)]
pub struct RTCPHeader {
    /// Whether padding octets follow the packet's contents.
    pub padding: bool,
    /// The number of report blocks or sources in the packet.
    pub count: u8,
    /// The kind of the packet.
    pub packet_type: PacketType,
    /// The length of the packet in 32-bit words, less one.
    pub length: u16,
}

impl RTCPHeader {
    /// A header that the wire format can carry: the count has five bits.
    pub open spec fn is_valid(self) -> bool {
        self.count < 0x20
    }

    /// The first octet: version 2, the padding flag and the count. A count
    /// of more than five bits spills into the bits above it.
    pub open spec fn first_octet(self) -> u8 {
        0x80u8 | (if self.padding {
            0x20u8
        } else {
            0u8
        }) | self.count
    }

    /// The four octets of the header on the wire.
    pub open spec fn wire(self) -> Seq<u8> {
        seq![self.first_octet(), self.packet_type.spec_code()] + be16(self.length)
    }

    /// The header that the first four octets of `s` spell.
    pub open spec fn parse(s: Seq<u8>) -> RTCPHeader
        recommends
            s.len() >= 4,
    {
        RTCPHeader {
            padding: (s[0] / 0x20) % 2 == 1,
            count: s[0] % 0x20,
            packet_type: PacketType::of(s[1]),
            length: from_be16(s.skip(2)),
        }
    }

    /// Writes the header in its wire format.
    pub fn serialize(&self) -> (buf: BytesMut)
        ensures
            bytes_mut_seq(buf) == self.wire(),
    {
        let mut buf = with_capacity(4);
        let flag: u8 = if self.padding {
            1
        } else {
            0
        };
        let b0: u8 = (2 << 6) | (flag << 5) | (self.count << 0);
        assert(b0 == self.first_octet()) by {
            let c = self.count;
            assert((2u8 << 6) | (1u8 << 5) | (c << 0) == 0x80u8 | 0x20u8 | c) by (bit_vector);
            assert((2u8 << 6) | (0u8 << 5) | (c << 0) == 0x80u8 | 0u8 | c) by (bit_vector);
        }
        put_u8(&mut buf, b0);
        put_u8(&mut buf, self.packet_type.code());
        put_u16(&mut buf, self.length);
        assert(bytes_mut_seq(buf) =~= self.wire());
        buf
    }

    /// Reads a header off the front of `packet`, which must hold the four
    /// octets of one.
    pub fn deserialize(packet: &mut BytesMut) -> (header: RTCPHeader)
        requires
            bytes_mut_seq(*old(packet)).len() >= 4,
        ensures
            header == RTCPHeader::parse(bytes_mut_seq(*old(packet))),
            bytes_mut_seq(*final(packet)) == bytes_mut_seq(*old(packet)).skip(4),
    {
        let ghost s = bytes_mut_seq(*packet);
        let b0 = get_u8(packet);
        let padding = ((b0 >> 5) & 0x1) > 0;
        let count = (b0 >> 0) & 0x1f;
        let packet_type = PacketType::from(get_u8(packet));
        assert(bytes_mut_seq(*packet) =~= s.skip(2));
        let length = get_u16(packet);
        assert(bytes_mut_seq(*packet) =~= s.skip(4));
        proof {
            assert((((b0 >> 5) & 0x1) > 0) == ((b0 / 0x20) % 2 == 1)) by (bit_vector);
            assert((b0 >> 0) & 0x1f == b0 % 0x20) by (bit_vector);
        }
        RTCPHeader { padding, count, packet_type, length }
    }
}

impl RTCPHeader {
    /// Reads a header off the front of `packet` where it holds the four
    /// octets of one. A shorter packet gives nothing and is left as it was.
    pub fn try_deserialize(packet: &mut BytesMut) -> (header: Option<RTCPHeader>)
        ensures
            match header {
                Some(h) => bytes_mut_seq(*old(packet)).len() >= 4 && h == RTCPHeader::parse(
                    bytes_mut_seq(*old(packet)),
                ) && bytes_mut_seq(*final(packet)) == bytes_mut_seq(*old(packet)).skip(4),
                None => bytes_mut_seq(*old(packet)).len() < 4 && bytes_mut_seq(*final(packet))
                    == bytes_mut_seq(*old(packet)),
            },
    {
        if mut_as_slice(packet).len() < RTCP_HEADER_LENGTH {
            None
        } else {
            Some(RTCPHeader::deserialize(packet))
        }
    }
}

/// A valid header survives the trip over the wire.
pub proof fn lemma_rtcp_header_roundtrip(h: RTCPHeader)
    requires
        h.is_valid(),
    ensures
        h.wire().len() == 4,
        RTCPHeader::parse(h.wire()) == h,
{
    let c = h.count;
    assert(c < 0x20 ==> (0x80u8 | 0x20u8 | c) == 0xa0 + c) by (bit_vector);
    assert(c < 0x20 ==> (0x80u8 | 0u8 | c) == 0x80 + c) by (bit_vector);
    lemma_be16_roundtrip(h.length);
    assert(h.wire().skip(2) =~= be16(h.length));
}

} // verus!
