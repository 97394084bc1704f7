//! The reception report block of RTCP sender and receiver reports.
//!
//! ```text
//!  0                   1                   2                   3
//!  0 1 2 3 4 5 6 7 8 9 0 1 2 3 4 5 6 7 8 9 0 1 2 3 4 5 6 7 8 9 0 1
//! +=+=+=+=+=+=+=+=+=+=+=+=+=+=+=+=+=+=+=+=+=+=+=+=+=+=+=+=+=+=+=+=+
//! |                              SSRC                             |
//! +-+-+-+-+-+-+-+-+-+-+-+-+-+-+-+-+-+-+-+-+-+-+-+-+-+-+-+-+-+-+-+-+
//! | fraction lost |       cumulative number of packets lost       |
//! +-+-+-+-+-+-+-+-+-+-+-+-+-+-+-+-+-+-+-+-+-+-+-+-+-+-+-+-+-+-+-+-+
//! |           extended highest sequence number received           |
//! +-+-+-+-+-+-+-+-+-+-+-+-+-+-+-+-+-+-+-+-+-+-+-+-+-+-+-+-+-+-+-+-+
//! |                      interarrival jitter                      |
//! +-+-+-+-+-+-+-+-+-+-+-+-+-+-+-+-+-+-+-+-+-+-+-+-+-+-+-+-+-+-+-+-+
//! |                         last SR (LSR)                         |
//! +-+-+-+-+-+-+-+-+-+-+-+-+-+-+-+-+-+-+-+-+-+-+-+-+-+-+-+-+-+-+-+-+
//! |                   delay since last SR (DLSR)                  |
//! +=+=+=+=+=+=+=+=+=+=+=+=+=+=+=+=+=+=+=+=+=+=+=+=+=+=+=+=+=+=+=+=+
//! ```

use crate::buffer::be32;
use crate::buffer::bytes_mut_seq;
use crate::buffer::from_be32;
use crate::buffer::get_u32;
use crate::buffer::get_u8;
use crate::buffer::lemma_be32_within;
use crate::buffer::mut_as_slice;
use crate::buffer::put_u32;
use crate::buffer::put_u8;
use crate::buffer::with_capacity;
use bytes::BytesMut;
use vstd::prelude::*;

verus! {

/// Length of a reception report block on the wire.
pub const RECEPTION_REPORT_LENGTH: usize = 24;

/// What a receiver reports of one source.
#[derive(Debug, Copy, Clone, PartialEq, Eq, Structural)]
pub struct ReceptionReport {
    pub ssrc: u32,
    pub fraction_lost: u8,
    pub total_lost: u32,
    pub last_sequence_number: u32,
    pub jitter: u32,
    pub last_sender_report: u32,
    pub delay: u32,
}

impl ReceptionReport {
    /// A report that the wire format can carry: the number of packets lost
    /// has 24 bits.
    pub open spec fn is_valid(self) -> bool {
        self.total_lost < 0x100_0000
    }

    /// The 24 octets of the block on the wire. Of the number of packets
    /// lost the low 24 bits are written.
    pub open spec fn wire(self) -> Seq<u8> {
        be32(self.ssrc) + seq![
            self.fraction_lost,
            (self.total_lost / 0x1_0000 % 0x100) as u8,
            (self.total_lost / 0x100 % 0x100) as u8,
            (self.total_lost % 0x100) as u8,
        ] + be32(self.last_sequence_number) + be32(self.jitter) + be32(self.last_sender_report)
            + be32(self.delay)
    }

    /// The block that the first 24 octets of `s` spell.
    pub open spec fn parse(s: Seq<u8>) -> ReceptionReport
        recommends
            s.len() >= 24,
    {
        ReceptionReport {
            ssrc: from_be32(s),
            fraction_lost: s[4],
            total_lost: (s[5] * 0x1_0000 + s[6] * 0x100 + s[7]) as u32,
            last_sequence_number: from_be32(s.skip(8)),
            jitter: from_be32(s.skip(12)),
            last_sender_report: from_be32(s.skip(16)),
            delay: from_be32(s.skip(20)),
        }
    }

    /// Writes the block in its wire format.
    pub fn serialize(&self) -> (buf: BytesMut)
        ensures
            bytes_mut_seq(buf) == self.wire(),
            bytes_mut_seq(buf).len() == 24,
    {
        let mut buf = with_capacity(24);
        put_u32(&mut buf, self.ssrc);
        put_u8(&mut buf, self.fraction_lost);
        let t = self.total_lost;
        assert(((t >> 16) & 0xFF) == t / 0x1_0000 % 0x100) by (bit_vector);
        assert(((t >> 8) & 0xFF) == t / 0x100 % 0x100) by (bit_vector);
        assert((t & 0xFF) == t % 0x100) by (bit_vector);
        put_u8(&mut buf, ((t >> 16) & 0xFF) as u8);
        put_u8(&mut buf, ((t >> 8) & 0xFF) as u8);
        put_u8(&mut buf, (t & 0xFF) as u8);
        put_u32(&mut buf, self.last_sequence_number);
        put_u32(&mut buf, self.jitter);
        put_u32(&mut buf, self.last_sender_report);
        put_u32(&mut buf, self.delay);
        assert(bytes_mut_seq(buf) =~= self.wire());
        buf
    }

    /// Reads a block off the front of `packet`, which must hold the 24
    /// octets of one.
    pub fn deserialize(packet: &mut BytesMut) -> (report: ReceptionReport)
        requires
            bytes_mut_seq(*old(packet)).len() >= 24,
        ensures
            report == ReceptionReport::parse(bytes_mut_seq(*old(packet))),
            bytes_mut_seq(*final(packet)) == bytes_mut_seq(*old(packet)).skip(24),
    {
        let ghost s = bytes_mut_seq(*packet);
        let ssrc = get_u32(packet);
        let fraction_lost = get_u8(packet);
        let t0 = get_u8(packet);
        let t1 = get_u8(packet);
        let t2 = get_u8(packet);
        assert(bytes_mut_seq(*packet) =~= s.skip(8));
        let total_lost: u32 = (t2 as u32) + (t1 as u32) * 0x100 + (t0 as u32) * 0x1_0000;
        let last_sequence_number = get_u32(packet);
        assert(bytes_mut_seq(*packet) =~= s.skip(12));
        let jitter = get_u32(packet);
        assert(bytes_mut_seq(*packet) =~= s.skip(16));
        let last_sender_report = get_u32(packet);
        assert(bytes_mut_seq(*packet) =~= s.skip(20));
        let delay = get_u32(packet);
        assert(bytes_mut_seq(*packet) =~= s.skip(24));
        ReceptionReport {
            ssrc,
            fraction_lost,
            total_lost,
            last_sequence_number,
            jitter,
            last_sender_report,
            delay,
        }
    }
}

impl ReceptionReport {
    /// Reads a block off the front of `packet` where it holds the 24 octets
    /// of one. A shorter packet gives nothing and is left as it was.
    pub fn try_deserialize(packet: &mut BytesMut) -> (report: Option<ReceptionReport>)
        ensures
            match report {
                Some(r) => bytes_mut_seq(*old(packet)).len() >= 24 && r == ReceptionReport::parse(
                    bytes_mut_seq(*old(packet)),
                ) && bytes_mut_seq(*final(packet)) == bytes_mut_seq(*old(packet)).skip(24),
                None => bytes_mut_seq(*old(packet)).len() < 24 && bytes_mut_seq(*final(packet))
                    == bytes_mut_seq(*old(packet)),
            },
    {
        if mut_as_slice(packet).len() < RECEPTION_REPORT_LENGTH {
            None
        } else {
            Some(ReceptionReport::deserialize(packet))
        }
    }
}

/// The 24 bits of a loss count are read back from their three octets.
proof fn lemma_total_lost_roundtrip(t: u32)
    requires
        t < 0x100_0000,
    ensures
        ((t / 0x1_0000 % 0x100) as u8) * 0x1_0000 + ((t / 0x100 % 0x100) as u8) * 0x100 + ((t
            % 0x100) as u8) == t,
{
}

/// The word that stands at `at` in a block on the wire is read back.
proof fn lemma_word_of_block(r: ReceptionReport, at: int, v: u32)
    requires
        at == 0 && v == r.ssrc || at == 8 && v == r.last_sequence_number || at == 12 && v
            == r.jitter || at == 16 && v == r.last_sender_report || at == 20 && v == r.delay,
    ensures
        from_be32(r.wire().skip(at)) == v,
{
    let w = r.wire();
    assert(w.subrange(at, at + 4) =~= be32(v));
    lemma_be32_within(w, at, v);
}

/// A valid block survives the trip over the wire.
pub proof fn lemma_reception_report_roundtrip(r: ReceptionReport)
    requires
        r.is_valid(),
    ensures
        r.wire().len() == 24,
        ReceptionReport::parse(r.wire()) == r,
{
    let w = r.wire();
    let p = ReceptionReport::parse(w);
    assert(p.ssrc == r.ssrc) by {
        lemma_word_of_block(r, 0, r.ssrc);
        assert(w.skip(0) =~= w);
    }
    assert(p.last_sequence_number == r.last_sequence_number) by {
        lemma_word_of_block(r, 8, r.last_sequence_number);
    }
    assert(p.jitter == r.jitter) by {
        lemma_word_of_block(r, 12, r.jitter);
    }
    assert(p.last_sender_report == r.last_sender_report) by {
        lemma_word_of_block(r, 16, r.last_sender_report);
    }
    assert(p.delay == r.delay) by {
        lemma_word_of_block(r, 20, r.delay);
    }
    assert(p.fraction_lost == r.fraction_lost);
    assert(p.total_lost == r.total_lost) by {
        lemma_total_lost_roundtrip(r.total_lost);
    }
}

} // verus!
