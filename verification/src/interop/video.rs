//! H.264 over RTP: splitting an access unit into NAL units, framing each
//! unit as one packet or as FU-A fragments, and putting received payloads
//! back together.
//!
//! ```text
//! +---------------+---------------+
//! |0|1|2|3|4|5|6|7|0|1|2|3|4|5|6|7|
//! +-+-+-+-+-+-+-+-+-+-+-+-+-+-+-+-+
//! |F|NRI|  Type   |S|E|R|  Type   |
//! +---------------+---------------+
//! ```
//!
//! The first octet above is the FU indicator: the importance (NRI) of the
//! fragmented unit and type 28. The second is the FU header: start and end
//! flags and the type of the fragmented unit.

use crate::buffer::as_slice;
use crate::buffer::be32;
use crate::buffer::bytes_mut_seq;
use crate::buffer::bytes_seq;
use crate::buffer::freeze;
use crate::buffer::from_be32;
use crate::buffer::mut_as_slice;
use crate::buffer::new_buffer;
use crate::buffer::put_slice;
use crate::buffer::put_u32;
use crate::buffer::put_u8;
use crate::buffer::slice_from;
use crate::buffer::with_capacity;
use crate::error::RtpError;
use crate::packets::rtp::lemma_header_of_packet;
use crate::packets::rtp::RTPHeader;
use crate::packets::rtp::RTPSession;
use crate::session_management::delay_calculator::arrival_difference;
use crate::session_management::delay_calculator::base_playout_time;
use crate::session_management::delay_calculator::received;
use crate::session_management::delay_calculator::refusal;
use crate::session_management::delay_calculator::DelayCalculator;
use crate::session_management::peer_manager::fragment_views;
use crate::session_management::peer_manager::lemma_buffer_with_nonempty;
use crate::session_management::peer_manager::RegistryView;
use crate::session_management::peer_manager::Fragment;
use crate::session_management::peer_manager::FragmentView;
use crate::session_management::peer_manager::PeerManager;
use crate::session_management::peer_manager::PeerView;
use bytes::Bytes;
use bytes::BytesMut;
use vstd::prelude::*;

verus! {

/// Length of the prefix that gives a NAL unit's length in an AVCC frame.
pub const AVCC_HEADER_LENGTH: usize = 4;

/// The most bytes of a NAL unit that one packet carries.
pub const MAX_FRAGMENT: usize = 1200;

/// The NAL unit type that marks an FU-A fragment.
pub const FU_A_TYPE: u8 = 28;

/// The type of a NAL unit: the low five bits of its first octet.
pub open spec fn nal_type(b0: u8) -> u8 {
    b0 % 0x20
}

/// The importance of a NAL unit: the two bits under the top bit of its
/// first octet.
pub open spec fn nal_nri(b0: u8) -> u8 {
    (b0 / 0x20) % 4
}

/// The NAL units of an AVCC frame, in order. The frame is read from the
/// front: four octets give a length, big-endian, and as many octets follow
/// as one unit. Reading stops at a length of zero, at a unit that the frame
/// is too short to hold, and where fewer than four octets are left.
pub open spec fn split_avcc(data: Seq<u8>) -> Seq<Seq<u8>>
    decreases data.len(),
{
    if data.len() < 4 {
        Seq::empty()
    } else {
        let l = from_be32(data) as int;
        if l == 0 || data.len() < 4 + l {
            Seq::empty()
        } else {
            seq![data.subrange(4, 4 + l)] + split_avcc(data.skip(4 + l))
        }
    }
}

/// The contents of each slice of a list.
pub open spec fn slice_seqs(v: Seq<&[u8]>) -> Seq<Seq<u8>> {
    Seq::new(v.len(), |i: int| v[i]@)
}

/// The contents of each buffer of a list.
pub open spec fn buffer_seqs(v: Seq<Bytes>) -> Seq<Seq<u8>> {
    Seq::new(v.len(), |i: int| bytes_seq(v[i]))
}

/// Splits an AVCC frame into its NAL units.
pub fn get_nal_units(data: &[u8]) -> (nal_units: Vec<&[u8]>)
    ensures
        slice_seqs(nal_units@) == split_avcc(data@),
{
    let mut nal_units: Vec<&[u8]> = Vec::new();
    let mut buffer_offset: usize = 0;
    let block_buffer_length = data.len();
    assert(data@.skip(0) =~= data@);
    while block_buffer_length - buffer_offset >= AVCC_HEADER_LENGTH
        invariant
            buffer_offset <= block_buffer_length == data@.len(),
            slice_seqs(nal_units@) + split_avcc(data@.skip(buffer_offset as int)) == split_avcc(
                data@,
            ),
        ensures
            slice_seqs(nal_units@) + Seq::<Seq<u8>>::empty() == split_avcc(data@),
        decreases block_buffer_length - buffer_offset,
    {
        let ghost rest = data@.skip(buffer_offset as int);
        let nal_unit_length: u32 = (data[buffer_offset] as u32) * 0x100_0000 + (data[buffer_offset
            + 1] as u32) * 0x1_0000 + (data[buffer_offset + 2] as u32) * 0x100 + (data[buffer_offset
            + 3] as u32);
        assert(nal_unit_length == from_be32(rest));
        if nal_unit_length == 0 {
            break ;
        }
        let room = block_buffer_length - buffer_offset - AVCC_HEADER_LENGTH;
        if nal_unit_length as u64 > room as u64 {
            break ;
        }
        let start = buffer_offset + AVCC_HEADER_LENGTH;
        let end = start + nal_unit_length as usize;
        let payload = &data[start..end];
        let ghost before = slice_seqs(nal_units@);
        nal_units.push(payload);
        proof {
            assert(payload@ =~= rest.subrange(4, 4 + nal_unit_length as int));
            assert(rest.skip(4 + nal_unit_length as int) =~= data@.skip(end as int));
            assert(slice_seqs(nal_units@) =~= before + seq![payload@]);
            assert(split_avcc(rest) == seq![payload@] + split_avcc(data@.skip(end as int)));
        }
        buffer_offset = end;
    }
    assert(slice_seqs(nal_units@) =~= slice_seqs(nal_units@) + Seq::<Seq<u8>>::empty());
    nal_units
}

/// Every unit that `split_avcc` finds holds at least one octet, and no
/// more than a 32-bit length can announce.
pub proof fn lemma_split_units_bounded(data: Seq<u8>)
    ensures
        forall|i: int|
            0 <= i < split_avcc(data).len() ==> 1 <= #[trigger] split_avcc(data)[i].len()
                <= u32::MAX,
    decreases data.len(),
{
    if data.len() >= 4 {
        let l = from_be32(data) as int;
        if !(l == 0 || data.len() < 4 + l) {
            let rest = split_avcc(data.skip(4 + l));
            lemma_split_units_bounded(data.skip(4 + l));
            assert forall|i: int| 0 <= i < split_avcc(data).len() implies 1 <= #[trigger] split_avcc(
                data,
            )[i].len() <= u32::MAX by {
                if i > 0 {
                    assert(split_avcc(data)[i] == rest[i - 1]);
                }
            }
        }
    }
}

/// The number of packets that carry a NAL unit of `len` octets: one while
/// the unit fits, else one for every 1200 octets after the unit's first.
pub open spec fn fragment_count(len: int) -> int {
    if len <= 1200 {
        1
    } else {
        (len - 1 + 1199) / 1200
    }
}

/// The FU indicator of a fragmented unit: the unit's importance over type 28.
pub open spec fn fu_indicator(b0: u8) -> u8 {
    (nal_nri(b0) * 0x20 + 28) as u8
}

/// The FU header of a fragment: the start flag, the end flag and the
/// unit's type.
pub open spec fn fu_header(b0: u8, first: bool, last: bool) -> u8 {
    ((if first { 0x80int } else { 0 }) + (if last { 0x40int } else { 0 }) + nal_type(b0)) as u8
}

/// The payload of the `i`-th packet that carries the unit `nal`: the unit
/// itself while it fits, else the two FU-A octets and the `i`-th run of 1200
/// octets after the unit's first, the last run being what is left.
pub open spec fn fragment_payload(nal: Seq<u8>, i: int) -> Seq<u8> {
    if nal.len() <= 1200 {
        nal
    } else {
        let n = fragment_count(nal.len() as int);
        let start = 1 + 1200 * i;
        let end = if i == n - 1 {
            nal.len() as int
        } else {
            start + 1200
        };
        seq![fu_indicator(nal[0]), fu_header(nal[0], i == 0, i == n - 1)] + nal.subrange(
            start,
            end,
        )
    }
}

/// The payloads of the packets that carry the unit `nal`, in order.
pub open spec fn unit_payloads(nal: Seq<u8>) -> Seq<Seq<u8>> {
    Seq::new(fragment_count(nal.len() as int) as nat, |i: int| fragment_payload(nal, i))
}

/// The packets that carry the unit `nal`: each payload behind the header
/// that the session hands out for it. The marker is set on the last packet
/// of the last unit of a frame and nowhere else.
pub open spec fn unit_packets(nal: Seq<u8>, session: RTPSession, is_last_unit: bool) -> Seq<
    Seq<u8>,
> {
    let n = fragment_count(nal.len() as int);
    Seq::new(
        n as nat,
        |i: int| session.header_at(i, is_last_unit && i == n - 1).wire() + fragment_payload(nal, i),
    )
}

/// Handing out `i` headers and then `j` more is handing out `i + j`.
pub proof fn lemma_session_advance(session: RTPSession, i: int, j: int, marker: bool)
    requires
        0 <= i,
        0 <= j,
    ensures
        session.advanced(i).advanced(j) == session.advanced(i + j),
        session.advanced(i).header_at(j, marker) == session.header_at(i + j, marker),
{
    let a = session.current_sequence_num as int;
    assert(((a + i) % 0x1_0000 + j) % 0x1_0000 == (a + i + j) % 0x1_0000);
    assert(((a + i) % 0x1_0000 + 1 + j) % 0x1_0000 == (a + 1 + i + j) % 0x1_0000);
}

/// Where the `i`-th fragment of a long unit lies, given how many octets
/// are left to send when it is made.
proof fn lemma_fragment_shape(nal: Seq<u8>, i: int, remaining: int)
    requires
        nal.len() > 1200,
        0 <= i,
        remaining == nal.len() - 1 - 1200 * i,
        remaining > 0,
    ensures
        i < fragment_count(nal.len() as int),
        (remaining <= 1200) == (i == fragment_count(nal.len() as int) - 1),
        fragment_payload(nal, i) == seq![
            fu_indicator(nal[0]),
            fu_header(nal[0], i == 0, remaining <= 1200),
        ] + nal.subrange(
            1 + 1200 * i,
            1 + 1200 * i + (if remaining <= 1200 {
                remaining
            } else {
                1200
            }),
        ),
{
}

/// The two FU-A octets as the bit operations compute them.
proof fn lemma_fu_octets(h: u8)
    ensures
        28u8 | (h & 0x60) == fu_indicator(h),
        h & 0x1F == fu_header(h, false, false),
        (h & 0x1F) | (1u8 << 7) == fu_header(h, true, false),
        (h & 0x1F) | (1u8 << 6) == fu_header(h, false, true),
        ((h & 0x1F) | (1u8 << 7)) | (1u8 << 6) == fu_header(h, true, true),
{
    assert(28u8 | (h & 0x60) == ((h / 0x20) % 4) * 0x20 + 28) by (bit_vector);
    assert(h & 0x1F == h % 0x20) by (bit_vector);
    assert((h & 0x1F) | (1u8 << 7) == h % 0x20 + 0x80) by (bit_vector);
    assert((h & 0x1F) | (1u8 << 6) == h % 0x20 + 0x40) by (bit_vector);
    assert(((h & 0x1F) | (1u8 << 7)) | (1u8 << 6) == h % 0x20 + 0xc0) by (bit_vector);
}

/// Frames one NAL unit as RTP packets: a single packet while the unit has at
/// most 1200 octets, else FU-A fragments of 1200 octets each and a shorter
/// last one. Every packet moves the session's sequence number on by one; the
/// timestamp stays.
pub fn get_fragments(payload: &[u8], rtp_session: &mut RTPSession, is_last_unit: bool) -> (payloads:
    Vec<Bytes>)
    requires
        payload@.len() >= 1,
    ensures
        buffer_seqs(payloads@) == unit_packets(payload@, *old(rtp_session), is_last_unit),
        *final(rtp_session) == old(rtp_session).advanced(payloads@.len() as int),
{
    let mut payloads: Vec<Bytes> = Vec::new();
    let ghost start_session = *rtp_session;
    let ghost n = fragment_count(payload@.len() as int);
    if payload.len() <= MAX_FRAGMENT {
        let rtp_header = rtp_session.get_packet(is_last_unit).serialize();
        let mut out = with_capacity(payload.len() + 12);
        put_slice(&mut out, mut_as_slice(&rtp_header));
        put_slice(&mut out, payload);
        payloads.push(freeze(out));
        assert(buffer_seqs(payloads@) =~= unit_packets(payload@, start_session, is_last_unit));
        return payloads;
    }
    let nalu_data_length: usize = payload.len() - 1;
    let mut nalu_data_index: usize = 1;
    let mut nalu_data_remaining: usize = nalu_data_length;
    let nalu_nri: u8 = payload[0] & 0x60;
    let nalu_type: u8 = payload[0] & 0x1F;
    while nalu_data_remaining > 0
        invariant
            1200 < payload@.len() <= usize::MAX,
            nalu_data_length == payload@.len() - 1,
            n == fragment_count(payload@.len() as int),
            nalu_nri == payload@[0] & 0x60,
            nalu_type == payload@[0] & 0x1F,
            0 <= payloads@.len() <= n,
            nalu_data_index + nalu_data_remaining == payload@.len(),
            nalu_data_remaining > 0 ==> nalu_data_remaining == nalu_data_length - 1200
                * payloads@.len(),
            nalu_data_remaining == 0 ==> payloads@.len() == n,
            *rtp_session == start_session.advanced(payloads@.len() as int),
            forall|j: int|
                0 <= j < payloads@.len() ==> bytes_seq(#[trigger] payloads@[j])
                    == start_session.header_at(j, is_last_unit && j == n - 1).wire()
                    + fragment_payload(payload@, j),
        decreases nalu_data_remaining,
    {
        let ghost i = payloads@.len() as int;
        let first = nalu_data_remaining == nalu_data_length;
        let last = nalu_data_remaining <= MAX_FRAGMENT;
        let current_fragment_size: usize = if last {
            nalu_data_remaining
        } else {
            MAX_FRAGMENT
        };
        proof {
            lemma_fragment_shape(payload@, i, nalu_data_remaining as int);
            lemma_session_advance(start_session, i, 0, is_last_unit && last);
            lemma_session_advance(start_session, i, 1, is_last_unit && last);
            lemma_fu_octets(payload@[0]);
        }
        let rtp_header = rtp_session.get_packet(is_last_unit && last).serialize();
        let mut out = with_capacity(2 + current_fragment_size + 12);
        put_slice(&mut out, mut_as_slice(&rtp_header));
        let b0: u8 = FU_A_TYPE | nalu_nri;
        put_u8(&mut out, b0);
        let mut b1: u8 = nalu_type;
        if first {
            b1 = b1 | (1 << 7);
        }
        if last {
            b1 = b1 | (1 << 6);
        }
        put_u8(&mut out, b1);
        put_slice(&mut out, &payload[nalu_data_index..nalu_data_index + current_fragment_size]);
        proof {
            let h = payload@[0];
            assert(b0 == fu_indicator(h));
            assert(b1 == fu_header(h, first, last));
            assert(bytes_mut_seq(out) =~= start_session.header_at(
                i,
                is_last_unit && last,
            ).wire() + (seq![b0, b1] + payload@.subrange(
                nalu_data_index as int,
                nalu_data_index + current_fragment_size,
            )));
        }
        nalu_data_remaining -= current_fragment_size;
        nalu_data_index += current_fragment_size;
        payloads.push(freeze(out));
    }
    assert(buffer_seqs(payloads@) =~= unit_packets(payload@, start_session, is_last_unit));
    payloads
}

/// The payloads of the packets that carry a frame: those of each of its
/// NAL units, in order.
pub open spec fn frame_payloads(units: Seq<Seq<u8>>) -> Seq<Seq<u8>>
    decreases units.len(),
{
    if units.len() == 0 {
        Seq::empty()
    } else {
        frame_payloads(units.drop_last()) + unit_payloads(units.last())
    }
}

/// The packets that carry a frame. The `i`-th packet has the `i`-th header
/// that the session hands out, all with the timestamp that the session
/// holds, and the `i`-th payload. The marker is set on the last packet.
pub open spec fn frame_packets(units: Seq<Seq<u8>>, session: RTPSession) -> Seq<Seq<u8>> {
    let payloads = frame_payloads(units);
    Seq::new(
        payloads.len(),
        |i: int| session.header_at(i, i == payloads.len() - 1).wire() + payloads[i],
    )
}

/// Every unit of a frame adds at least one payload.
pub proof fn lemma_frame_payloads_grow(units: Seq<Seq<u8>>)
    requires
        units.len() > 0,
    ensures
        frame_payloads(units).len() == frame_payloads(units.drop_last()).len() + fragment_count(
            units.last().len() as int,
        ),
        frame_payloads(units).len() > frame_payloads(units.drop_last()).len(),
{
}

/// Turns one access unit into the RTP packets that carry it, ready to be
/// sent in order: the frame is split into NAL units, each unit is framed by
/// [`get_fragments`], and the session's timestamp then moves on by one
/// increment.
pub fn packetize_frame(data: &[u8], rtp_session: &mut RTPSession) -> (packets: Vec<Bytes>)
    ensures
        buffer_seqs(packets@) == frame_packets(split_avcc(data@), *old(rtp_session)),
        *final(rtp_session) == old(rtp_session).advanced(packets@.len() as int).ticked(),
{
    let nal_units = get_nal_units(data);
    let ghost units = split_avcc(data@);
    let ghost start_session = *rtp_session;
    let mut packets: Vec<Bytes> = Vec::new();
    let mut k: usize = 0;
    proof {
        lemma_split_units_bounded(data@);
        assert(units.take(0) =~= Seq::<Seq<u8>>::empty());
    }
    while k < nal_units.len()
        invariant
            k <= nal_units@.len(),
            slice_seqs(nal_units@) == units,
            forall|i: int| 0 <= i < units.len() ==> 1 <= #[trigger] units[i].len(),
            packets@.len() == frame_payloads(units.take(k as int)).len(),
            *rtp_session == start_session.advanced(packets@.len() as int),
            forall|j: int|
                0 <= j < packets@.len() ==> bytes_seq(#[trigger] packets@[j])
                    == start_session.header_at(j, k == units.len() && j == packets@.len() - 1).wire()
                    + frame_payloads(units.take(k as int))[j],
        decreases nal_units@.len() - k,
    {
        let is_last_unit = k + 1 == nal_units.len();
        let ghost done = packets@.len() as int;
        let ghost before = *rtp_session;
        assert(nal_units@[k as int]@ == units[k as int]);
        let mut fragments = get_fragments(nal_units[k], rtp_session, is_last_unit);
        proof {
            let unit = units[k as int];
            let next = units.take(k as int + 1);
            assert(next.drop_last() =~= units.take(k as int));
            assert(next.last() == unit);
            lemma_frame_payloads_grow(next);
            let m = fragment_count(unit.len() as int);
            assert(buffer_seqs(fragments@).len() == m);
            lemma_session_advance(start_session, done, m, false);
            assert forall|j: int| 0 <= j < m implies bytes_seq(#[trigger] fragments@[j])
                == start_session.header_at(
                done + j,
                is_last_unit && done + j == done + m - 1,
            ).wire() + frame_payloads(next)[done + j] by {
                assert(buffer_seqs(fragments@)[j] == unit_packets(unit, before, is_last_unit)[j]);
                lemma_session_advance(start_session, done, j, is_last_unit && j == m - 1);
            }
            assert forall|j: int| 0 <= j < done implies frame_payloads(next)[j] == frame_payloads(
                units.take(k as int),
            )[j] by {}
        }
        let ghost old_packets = packets@;
        let ghost new_fragments = fragments@;
        packets.append(&mut fragments);
        assert(packets@ == old_packets + new_fragments);
        k = k + 1;
    }
    rtp_session.next_packet();
    proof {
        assert(units.take(k as int) =~= units);
        assert(buffer_seqs(packets@) =~= frame_packets(units, start_session));
    }
    packets
}

/// Sequence numbers count up by one from packet to packet: the packets of
/// a frame carry the numbers that follow the session's, modulo 2^16, and the
/// session is left at the last of them.
pub proof fn lemma_frame_sequence_numbers(units: Seq<Seq<u8>>, session: RTPSession, i: int)
    requires
        0 <= i < frame_packets(units, session).len(),
    ensures
        RTPHeader::parse(frame_packets(units, session)[i]).sequence_number == (
        session.current_sequence_num + 1 + i) % 0x1_0000,
        session.advanced(frame_packets(units, session).len() as int).current_sequence_num == (
        session.current_sequence_num + frame_packets(units, session).len()) % 0x1_0000,
{
    let n = frame_payloads(units).len();
    lemma_header_of_packet(session.header_at(i, i == n - 1), frame_payloads(units)[i]);
}

/// All packets of a frame carry the timestamp that the session held when
/// the frame was handed in, and the session's timestamp is one increment
/// further, modulo 2^32, when the frame is done.
pub proof fn lemma_frame_timestamps(units: Seq<Seq<u8>>, session: RTPSession, i: int)
    requires
        0 <= i < frame_packets(units, session).len(),
    ensures
        RTPHeader::parse(frame_packets(units, session)[i]).timestamp == session.timestamp,
        session.advanced(frame_packets(units, session).len() as int).ticked().timestamp == (
        session.timestamp + session.increment) % 0x1_0000_0000,
{
    let n = frame_payloads(units).len();
    lemma_header_of_packet(session.header_at(i, i == n - 1), frame_payloads(units)[i]);
}

/// Exactly one packet of a frame has the marker set, and it is the last one.
pub proof fn lemma_frame_marker(units: Seq<Seq<u8>>, session: RTPSession, i: int)
    requires
        0 <= i < frame_packets(units, session).len(),
    ensures
        RTPHeader::parse(frame_packets(units, session)[i]).marker == (i == frame_packets(
            units,
            session,
        ).len() - 1),
{
    let n = frame_payloads(units).len();
    lemma_header_of_packet(session.header_at(i, i == n - 1), frame_payloads(units)[i]);
}

/// The payload of each packet of a frame is what follows its twelve header
/// octets.
pub proof fn lemma_frame_packet_payload(units: Seq<Seq<u8>>, session: RTPSession, i: int)
    requires
        0 <= i < frame_packets(units, session).len(),
    ensures
        frame_packets(units, session)[i].skip(12) == frame_payloads(units)[i],
{
    let n = frame_payloads(units).len();
    lemma_header_of_packet(session.header_at(i, i == n - 1), frame_payloads(units)[i]);
}

/// What the depacketizer holds between two payloads: the AVCC octets
/// written so far and the fragments of a unit whose end has not come yet.
pub struct Reassembly {
    pub frame: Seq<u8>,
    pub pending: Seq<u8>,
}

/// The first octet of a unit put back together from FU-A fragments: the
/// importance from the FU indicator over the type from the FU header.
pub open spec fn rebuilt_octet(indicator: u8, header: u8) -> u8 {
    (nal_nri(indicator) * 0x20 + nal_type(header)) as u8
}

/// The end flag of an FU header.
pub open spec fn fu_end(header: u8) -> bool {
    (header / 0x40) % 2 == 1
}

/// What one payload adds. A unit of type 1 to 23 is written out behind its
/// length. A fragment, type 28, adds what follows its two FU-A octets to the
/// pending unit; with the end flag set the unit is written out behind its
/// length and its rebuilt first octet. Any other payload is passed over, and
/// so is one too short to hold the octets that say what it is. Lengths are
/// written as 32-bit integers.
pub open spec fn reassemble_step(st: Reassembly, p: Seq<u8>) -> Reassembly {
    if p.len() == 0 {
        st
    } else if 1 <= nal_type(p[0]) <= 23 {
        Reassembly { frame: st.frame + be32(p.len() as u32) + p, pending: st.pending }
    } else if nal_type(p[0]) == 28 && p.len() >= 2 {
        let pending = st.pending + p.skip(2);
        if fu_end(p[1]) {
            Reassembly {
                frame: st.frame + be32((pending.len() + 1) as u32) + seq![
                    rebuilt_octet(p[0], p[1]),
                ] + pending,
                pending: Seq::empty(),
            }
        } else {
            Reassembly { frame: st.frame, pending }
        }
    } else {
        st
    }
}

/// The state after the payloads have been taken in, first to last.
pub open spec fn reassemble(payloads: Seq<Seq<u8>>) -> Reassembly
    decreases payloads.len(),
{
    if payloads.len() == 0 {
        Reassembly { frame: Seq::empty(), pending: Seq::empty() }
    } else {
        reassemble_step(reassemble(payloads.drop_last()), payloads.last())
    }
}

/// The AVCC frame that a list of RTP payloads spells.
pub open spec fn depacketize(payloads: Seq<Seq<u8>>) -> Seq<u8> {
    reassemble(payloads).frame
}

/// Puts the payloads of one frame's packets, in sending order, back
/// together as an AVCC frame.
pub fn rtp_to_avcc_h264(packets: Vec<Bytes>) -> (payload: BytesMut)
    ensures
        bytes_mut_seq(payload) == depacketize(buffer_seqs(packets@)),
{
    let mut payload = new_buffer();
    let mut fua_buffer = new_buffer();
    let ghost all = buffer_seqs(packets@);
    let mut k: usize = 0;
    assert(all.take(0) =~= Seq::<Seq<u8>>::empty());
    while k < packets.len()
        invariant
            k <= packets@.len(),
            all == buffer_seqs(packets@),
            bytes_mut_seq(payload) == reassemble(all.take(k as int)).frame,
            bytes_mut_seq(fua_buffer) == reassemble(all.take(k as int)).pending,
        decreases packets@.len() - k,
    {
        let packet = as_slice(&packets[k]);
        proof {
            assert(all.take(k as int + 1).drop_last() =~= all.take(k as int));
            assert(all.take(k as int + 1).last() == packet@);
        }
        let ghost st = reassemble(all.take(k as int));
        if packet.len() > 0 {
            let b0 = packet[0];
            let nalu_type = b0 & 0x1F;
            assert(b0 & 0x1F == b0 % 0x20) by (bit_vector);
            if 1 <= nalu_type && nalu_type <= 23 {
                put_u32(&mut payload, #[verifier::truncate] (packet.len() as u32));
                put_slice(&mut payload, packet);
            } else if nalu_type == FU_A_TYPE && packet.len() >= 2 {
                let tail = slice_from(&packets[k], 2);
                put_slice(&mut fua_buffer, as_slice(&tail));
                let b1 = packet[1];
                assert((b1 & 0x40 != 0) == ((b1 / 0x40) % 2 == 1)) by (bit_vector);
                if b1 & 0x40 != 0 {
                    let nalu_ref_idc = b0 & 0x60;
                    let fragmented_nalu_type = b1 & 0x1F;
                    assert((b0 & 0x60) | (b1 & 0x1F) == ((b0 / 0x20) % 4) * 0x20 + b1 % 0x20)
                        by (bit_vector);
                    let whole = mut_as_slice(&fua_buffer);
                    put_u32(
                        &mut payload,
                        #[verifier::truncate] ((whole.len() as u128 + 1) as u32),
                    );
                    put_u8(&mut payload, nalu_ref_idc | fragmented_nalu_type);
                    put_slice(&mut payload, whole);
                    fua_buffer = new_buffer();
                }
            }
        }
        assert(bytes_mut_seq(payload) =~= reassemble_step(st, packet@).frame);
        assert(bytes_mut_seq(fua_buffer) =~= reassemble_step(st, packet@).pending);
        k = k + 1;
    }
    assert(all.take(k as int) =~= all);
    payload
}

/// The payloads of a list of fragments, in order.
pub open spec fn coded_payloads(coded_data: Seq<FragmentView>) -> Seq<Seq<u8>> {
    Seq::new(coded_data.len(), |i: int| coded_data[i].data)
}

/// Hands over the payloads of a list of fragments, in order.
fn into_payloads(coded_data: Vec<Fragment>) -> (payloads: Vec<Bytes>)
    ensures
        buffer_seqs(payloads@) == coded_payloads(fragment_views(coded_data@)),
{
    let ghost wanted = coded_payloads(fragment_views(coded_data@));
    let mut coded_data = coded_data;
    let mut reversed: Vec<Bytes> = Vec::new();
    while coded_data.len() > 0
        invariant
            coded_data@.len() + reversed@.len() == wanted.len(),
            forall|i: int|
                0 <= i < coded_data@.len() ==> bytes_seq(#[trigger] coded_data@[i].data)
                    == wanted[i],
            forall|i: int|
                0 <= i < reversed@.len() ==> bytes_seq(#[trigger] reversed@[i]) == wanted[
                    wanted.len() - 1 - i],
        decreases coded_data@.len(),
    {
        match coded_data.pop() {
            Some(fragment) => {
                reversed.push(fragment.data);
            },
            None => {},
        }
    }
    let mut payloads: Vec<Bytes> = Vec::new();
    while reversed.len() > 0
        invariant
            payloads@.len() + reversed@.len() == wanted.len(),
            forall|i: int|
                0 <= i < reversed@.len() ==> bytes_seq(#[trigger] reversed@[i]) == wanted[
                    wanted.len() - 1 - i],
            forall|i: int| 0 <= i < payloads@.len() ==> bytes_seq(#[trigger] payloads@[i]) == wanted[i],
        decreases reversed@.len(),
    {
        match reversed.pop() {
            Some(data) => {
                payloads.push(data);
            },
            None => {},
        }
    }
    assert(buffer_seqs(payloads@) =~= wanted);
    payloads
}

/// A frame that is complete and ready for the consumer.
pub struct CompletedFrame {
    /// The handle that the consumer gave for the peer that sent the frame.
    pub consumer_context: usize,
    /// The frame in AVCC format.
    pub data: BytesMut,
}

/// Handles one received datagram. The packet is taken in as
/// [`DelayCalculator::receive`] does. Where its marker is set, the frame
/// that stands last in the sender's playout buffer is taken out, put
/// together as an AVCC frame and returned with the sender's consumer handle.
/// A packet that is refused changes nothing.
pub fn receive_datagram(
    peer_manager: &mut PeerManager,
    delay_calculator: &mut DelayCalculator,
    datagram: &[u8],
    arrival_millis: u128,
    media_clock_rate: u32,
) -> (res: Result<Option<CompletedFrame>, RtpError>)
    requires
        old(peer_manager)@.wf(),
    ensures
        final(peer_manager)@.wf(),
        match res {
            Ok(delivery) => {
                let header = RTPHeader::parse(datagram@);
                let difference = arrival_difference(
                    arrival_millis,
                    media_clock_rate,
                    header.timestamp,
                );
                let taken = received(old(peer_manager)@, header, datagram@.skip(12), difference);
                let peer = taken.peers[header.ssrc];
                &&& datagram@.len() >= 12
                &&& old(peer_manager)@.peers.dom().contains(header.ssrc)
                &&& final(delay_calculator)@ == old(delay_calculator)@.adjusted(difference)
                &&& peer.playout_buffer.len() > 0
                &&& match delivery {
                    Some(frame) => {
                        &&& header.marker
                        &&& frame.consumer_context == peer.consumer_context
                        &&& bytes_mut_seq(frame.data) == depacketize(
                            coded_payloads(peer.playout_buffer.last().coded_data),
                        )
                        &&& final(peer_manager)@ == taken.with_peer(
                            header.ssrc,
                            PeerView { playout_buffer: peer.playout_buffer.drop_last(), ..peer },
                        )
                    },
                    None => !header.marker && final(peer_manager)@ == taken,
                }
            },
            Err(e) => {
                &&& final(peer_manager)@ == old(peer_manager)@
                &&& final(delay_calculator)@ == old(delay_calculator)@
                &&& e == refusal(old(peer_manager)@, datagram@)
                &&& datagram@.len() >= 12 ==> !old(peer_manager)@.peers.dom().contains(
                    RTPHeader::parse(datagram@).ssrc,
                )
            },
        },
{
    let header = match delay_calculator.receive(
        peer_manager,
        arrival_millis,
        media_clock_rate,
        datagram,
    ) {
        Ok((header, _)) => header,
        Err(e) => {
            return Err(e);
        },
    };
    let ghost taken = peer_manager@;
    proof {
        lemma_received_nonempty(
            old(peer_manager)@,
            header,
            datagram@.skip(12),
            arrival_difference(arrival_millis, media_clock_rate, header.timestamp),
        );
    }
    if !header.marker {
        return Ok(None);
    }
    let context = peer_manager.get_context(header.ssrc);
    let node = peer_manager.pop_node(header.ssrc);
    match (node, context) {
        (Some(frame), Some(consumer_context)) => {
            let frame_bytes = into_payloads(frame.coded_data);
            let data = rtp_to_avcc_h264(frame_bytes);
            Ok(Some(CompletedFrame { consumer_context, data }))
        },
        _ => Ok(None),
    }
}

/// A peer that has just received a packet has a frame in its buffer.
proof fn lemma_received_nonempty(
    registry: RegistryView,
    header: RTPHeader,
    payload: Seq<u8>,
    difference: u32,
)
    requires
        registry.peers.dom().contains(header.ssrc),
    ensures
        received(registry, header, payload, difference).peers.dom().contains(header.ssrc),
        received(registry, header, payload, difference).peers[header.ssrc].playout_buffer.len() > 0,
{
    let peer = registry.peers[header.ssrc].with_offset(difference);
    lemma_buffer_with_nonempty(
        peer.playout_buffer,
        header.timestamp,
        base_playout_time(header.timestamp, peer.min_window),
        FragmentView {
            extended_sequence_num: peer.extended(header.sequence_number),
            sequence_num: header.sequence_number,
            data: payload,
        },
    );
}

} // verus!
