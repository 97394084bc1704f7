//! What packetizing and depacketizing do to each other.

use crate::buffer::be32;
use crate::buffer::from_be32;
use crate::buffer::lemma_be32_roundtrip;
use crate::interop::video::depacketize;
use crate::interop::video::fragment_count;
use crate::interop::video::frame_packets;
use crate::interop::video::frame_payloads;
use crate::interop::video::fu_end;
use crate::interop::video::fu_header;
use crate::interop::video::fu_indicator;
use crate::interop::video::lemma_frame_packet_payload;
use crate::interop::video::nal_nri;
use crate::interop::video::nal_type;
use crate::interop::video::reassemble;
use crate::interop::video::reassemble_step;
use crate::interop::video::rebuilt_octet;
use crate::interop::video::split_avcc;
use crate::interop::video::unit_payloads;
use crate::interop::video::Reassembly;
use crate::packets::rtp::RTPSession;
use vstd::prelude::*;

verus! {

/// The AVCC frame that holds the given NAL units: each unit behind its
/// length as four octets, big-endian.
pub open spec fn avcc_frame(units: Seq<Seq<u8>>) -> Seq<u8>
    decreases units.len(),
{
    if units.len() == 0 {
        Seq::empty()
    } else {
        avcc_frame(units.drop_last()) + be32(units.last().len() as u32) + units.last()
    }
}

/// The fields of the two FU-A octets, read back.
proof fn lemma_fu_fields(h: u8, first: bool, last: bool)
    ensures
        nal_type(fu_indicator(h)) == 28,
        nal_nri(fu_indicator(h)) == nal_nri(h),
        nal_type(fu_header(h, first, last)) == nal_type(h),
        fu_end(fu_header(h, first, last)) == last,
        rebuilt_octet(fu_indicator(h), fu_header(h, first, last)) == h % 0x80,
{
}

/// The fragments of a long unit before its last one only pile up: after `j`
/// of them the octets of the unit that they carried are pending, and nothing
/// has been written.
proof fn lemma_reassemble_fragments(prefix: Seq<Seq<u8>>, nal: Seq<u8>, j: int)
    requires
        nal.len() > 1200,
        0 <= j < fragment_count(nal.len() as int),
        reassemble(prefix).pending == Seq::<u8>::empty(),
    ensures
        1 + 1200 * j < nal.len(),
        reassemble(prefix + unit_payloads(nal).take(j)) == (Reassembly {
            frame: reassemble(prefix).frame,
            pending: nal.subrange(1, 1 + 1200 * j),
        }),
    decreases j,
{
    let ps = unit_payloads(nal);
    if j == 0 {
        assert(prefix + ps.take(0) =~= prefix);
        assert(nal.subrange(1, 1) =~= Seq::<u8>::empty());
    } else {
        lemma_reassemble_fragments(prefix, nal, j - 1);
        let p = ps[j - 1];
        assert((prefix + ps.take(j)).drop_last() =~= prefix + ps.take(j - 1));
        assert((prefix + ps.take(j)).last() == p);
        lemma_fu_fields(nal[0], j - 1 == 0, false);
        assert(p.skip(2) =~= nal.subrange(1 + 1200 * (j - 1), 1 + 1200 * j));
        assert(nal.subrange(1, 1 + 1200 * (j - 1)) + p.skip(2) =~= nal.subrange(1, 1 + 1200 * j));
    }
}

/// What the packets of one unit add when nothing is pending: a unit that
/// went out whole, of type 1 to 23, comes back as it was behind its length;
/// a unit that went out in fragments comes back behind its length with its
/// first octet rebuilt from importance and type, the top bit cleared.
pub proof fn lemma_reassemble_unit(prefix: Seq<Seq<u8>>, nal: Seq<u8>)
    requires
        1 <= nal.len() <= u32::MAX,
        nal.len() <= 1200 ==> 1 <= nal_type(nal[0]) <= 23,
        reassemble(prefix).pending == Seq::<u8>::empty(),
    ensures
        reassemble(prefix + unit_payloads(nal)) == (Reassembly {
            frame: reassemble(prefix).frame + be32(nal.len() as u32) + (if nal.len() <= 1200 {
                nal
            } else {
                seq![(nal[0] % 0x80) as u8] + nal.skip(1)
            }),
            pending: Seq::empty(),
        }),
{
    if nal.len() <= 1200 {
        lemma_reassemble_whole(prefix, nal);
    } else {
        lemma_reassemble_fragmented(prefix, nal);
    }
}

/// The one packet of a short unit writes the unit out behind its length.
proof fn lemma_reassemble_whole(prefix: Seq<Seq<u8>>, nal: Seq<u8>)
    requires
        1 <= nal.len() <= 1200,
        1 <= nal_type(nal[0]) <= 23,
    ensures
        reassemble(prefix + unit_payloads(nal)) == (Reassembly {
            frame: reassemble(prefix).frame + be32(nal.len() as u32) + nal,
            pending: reassemble(prefix).pending,
        }),
{
    let all = prefix + unit_payloads(nal);
    assert(unit_payloads(nal).len() == 1);
    assert(unit_payloads(nal)[0] == nal);
    assert(all.drop_last() =~= prefix);
    assert(all.last() == nal);
}

/// The last fragment of a long unit writes the whole unit out.
proof fn lemma_reassemble_fragmented(prefix: Seq<Seq<u8>>, nal: Seq<u8>)
    requires
        1200 < nal.len() <= u32::MAX,
        reassemble(prefix).pending == Seq::<u8>::empty(),
    ensures
        reassemble(prefix + unit_payloads(nal)) == (Reassembly {
            frame: reassemble(prefix).frame + be32(nal.len() as u32) + (seq![
                (nal[0] % 0x80) as u8,
            ] + nal.skip(1)),
            pending: Seq::empty(),
        }),
{
    let ps = unit_payloads(nal);
    let all = prefix + ps;
    let n = fragment_count(nal.len() as int);
    lemma_reassemble_fragments(prefix, nal, n - 1);
    let before = reassemble(prefix + ps.take(n - 1));
    let p = ps[n - 1];
    assert(all.drop_last() =~= prefix + ps.take(n - 1));
    assert(all.last() == p);
    assert(reassemble(all) == reassemble_step(before, p));
    lemma_fu_fields(nal[0], n - 1 == 0, true);
    let start = 1 + 1200 * (n - 1);
    assert(p == seq![fu_indicator(nal[0]), fu_header(nal[0], n - 1 == 0, true)] + nal.subrange(
        start,
        nal.len() as int,
    ));
    assert(p.len() >= 2);
    assert(p[0] == fu_indicator(nal[0]));
    assert(p[1] == fu_header(nal[0], n - 1 == 0, true));
    assert(p.skip(2) =~= nal.subrange(start, nal.len() as int));
    let pending = before.pending + p.skip(2);
    assert(pending =~= nal.skip(1));
    assert(pending.len() + 1 == nal.len());
    assert(reassemble_step(before, p).frame == before.frame + be32((pending.len() + 1) as u32)
        + seq![rebuilt_octet(p[0], p[1])] + pending);
    assert(before.frame + be32(nal.len() as u32) + seq![(nal[0] % 0x80) as u8] + nal.skip(1)
        =~= before.frame + be32(nal.len() as u32) + (seq![(nal[0] % 0x80) as u8] + nal.skip(1)));
}

/// A NAL unit of more than 1200 octets, sent as FU-A fragments, comes back
/// as one unit: the length written in front of it is the unit's length, its
/// first octet is importance times 32 plus type, and the rest is unchanged.
pub proof fn lemma_fua_reconstruction(nal: Seq<u8>)
    requires
        1200 < nal.len() <= u32::MAX,
    ensures
        depacketize(unit_payloads(nal)) == be32(nal.len() as u32) + seq![
            (nal_nri(nal[0]) * 0x20 + nal_type(nal[0])) as u8,
        ] + nal.skip(1),
        from_be32(depacketize(unit_payloads(nal))) == nal.len(),
        depacketize(unit_payloads(nal))[4] == nal_nri(nal[0]) * 0x20 + nal_type(nal[0]),
{
    let prefix = Seq::<Seq<u8>>::empty();
    lemma_reassemble_unit(prefix, nal);
    assert(prefix + unit_payloads(nal) =~= unit_payloads(nal));
    let out = depacketize(unit_payloads(nal));
    assert(out =~= be32(nal.len() as u32) + seq![
        (nal_nri(nal[0]) * 0x20 + nal_type(nal[0])) as u8,
    ] + nal.skip(1));
    lemma_be32_roundtrip(nal.len() as u32);
    assert(out[0] == be32(nal.len() as u32)[0] && out[1] == be32(nal.len() as u32)[1] && out[2]
        == be32(nal.len() as u32)[2] && out[3] == be32(nal.len() as u32)[3]);
}

/// A unit that comes back from the trip exactly as it went: not empty, with
/// a length that four octets can give, of type 1 to 23 where it is sent
/// whole, and with a clear top bit where it is sent in fragments.
pub open spec fn survives_transport(nal: Seq<u8>) -> bool {
    &&& 1 <= nal.len() <= u32::MAX
    &&& if nal.len() <= 1200 {
        1 <= nal_type(nal[0]) <= 23
    } else {
        nal[0] < 0x80
    }
}

/// The payloads of a frame's packets spell the frame again.
pub proof fn lemma_depacketize_frame(units: Seq<Seq<u8>>)
    requires
        forall|i: int| 0 <= i < units.len() ==> survives_transport(#[trigger] units[i]),
    ensures
        reassemble(frame_payloads(units)) == (Reassembly {
            frame: avcc_frame(units),
            pending: Seq::empty(),
        }),
    decreases units.len(),
{
    if units.len() > 0 {
        let nal = units.last();
        assert(survives_transport(nal));
        lemma_depacketize_frame(units.drop_last());
        lemma_reassemble_unit(frame_payloads(units.drop_last()), nal);
        if nal.len() > 1200 {
            assert(seq![(nal[0] % 0x80) as u8] + nal.skip(1) =~= nal);
        }
    }
}

/// An AVCC frame starts with its first unit.
proof fn lemma_avcc_frame_front(units: Seq<Seq<u8>>)
    requires
        units.len() > 0,
    ensures
        avcc_frame(units) == be32(units[0].len() as u32) + units[0] + avcc_frame(units.skip(1)),
    decreases units.len(),
{
    if units.len() == 1 {
        assert(units.drop_last() =~= Seq::<Seq<u8>>::empty());
        assert(units.skip(1) =~= Seq::<Seq<u8>>::empty());
        assert(avcc_frame(units) =~= be32(units[0].len() as u32) + units[0] + avcc_frame(
            units.skip(1),
        ));
    } else {
        lemma_avcc_frame_front(units.drop_last());
        assert(units.drop_last().skip(1) =~= units.skip(1).drop_last());
        assert(units.skip(1).last() == units.last());
        assert(avcc_frame(units) =~= be32(units[0].len() as u32) + units[0] + avcc_frame(
            units.skip(1),
        ));
    }
}

/// Splitting the frame that holds some units gives those units.
pub proof fn lemma_split_avcc_frame(units: Seq<Seq<u8>>)
    requires
        forall|i: int| 0 <= i < units.len() ==> 1 <= #[trigger] units[i].len() <= u32::MAX,
    ensures
        split_avcc(avcc_frame(units)) == units,
    decreases units.len(),
{
    if units.len() == 0 {
        assert(split_avcc(avcc_frame(units)) =~= units);
    } else {
        let first = units[0];
        let l = first.len() as u32;
        let rest = avcc_frame(units.skip(1));
        let data = avcc_frame(units);
        lemma_avcc_frame_front(units);
        lemma_be32_roundtrip(l);
        assert(data =~= be32(l) + first + rest);
        assert(data[0] == be32(l)[0] && data[1] == be32(l)[1] && data[2] == be32(l)[2] && data[3]
            == be32(l)[3]);
        assert(from_be32(data) == l);
        assert(data.subrange(4, 4 + l) =~= first);
        assert(data.skip(4 + l) =~= rest);
        assert forall|i: int| 0 <= i < units.skip(1).len() implies 1 <= #[trigger] units.skip(
            1,
        )[i].len() <= u32::MAX by {
            assert(units.skip(1)[i] == units[i + 1]);
        }
        lemma_split_avcc_frame(units.skip(1));
        assert(split_avcc(data) =~= units);
    }
}

/// The payloads of a list of packets: what follows the twelve header octets
/// of each.
pub open spec fn packet_payloads(packets: Seq<Seq<u8>>) -> Seq<Seq<u8>> {
    Seq::new(packets.len(), |i: int| packets[i].skip(12))
}

/// An AVCC frame that is packetized, its packets' payloads then
/// depacketized in order, comes out as it went in, whatever the session's
/// state, as long as each of its units survives transport.
pub proof fn lemma_avcc_roundtrip(units: Seq<Seq<u8>>, session: RTPSession)
    requires
        forall|i: int| 0 <= i < units.len() ==> survives_transport(#[trigger] units[i]),
    ensures
        depacketize(packet_payloads(frame_packets(split_avcc(avcc_frame(units)), session)))
            == avcc_frame(units),
{
    lemma_split_avcc_frame(units);
    lemma_depacketize_frame(units);
    let packets = frame_packets(units, session);
    assert forall|i: int| 0 <= i < packets.len() implies packet_payloads(packets)[i]
        == frame_payloads(units)[i] by {
        lemma_frame_packet_payload(units, session, i);
    }
    assert(packet_payloads(packets) =~= frame_payloads(units));
}

} // verus!
