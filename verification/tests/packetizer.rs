use bytes::Bytes;
use bytes::BytesMut;
use rtp::address::SocketAddress;
use rtp::interop::video::get_fragments;
use rtp::interop::video::get_nal_units;
use rtp::interop::video::packetize_frame;
use rtp::interop::video::rtp_to_avcc_h264;
use rtp::packets::rtp::RTPHeader;
use rtp::packets::rtp::RTPSession;

fn session_at(sequence: u16, timestamp: u32) -> RTPSession {
    RTPSession {
        current_sequence_num: sequence,
        timestamp,
        increment: 3000,
        ssrc: 0x11223344,
        local_addr: SocketAddress::v4(0x7f00_0001, 5004),
        rtcp_addr: SocketAddress::v4(0x7f00_0001, 5005),
    }
}

fn header_of(packet: &Bytes) -> RTPHeader {
    let mut copy = BytesMut::from(&packet[..]);
    RTPHeader::deserialize(&mut copy).unwrap()
}

fn avcc(units: &[Vec<u8>]) -> Vec<u8> {
    let mut frame: Vec<u8> = Vec::new();
    for unit in units {
        frame.extend_from_slice(&(unit.len() as u32).to_be_bytes());
        frame.extend_from_slice(unit);
    }
    frame
}

fn patterned(len: usize, first: u8) -> Vec<u8> {
    let mut unit: Vec<u8> = Vec::with_capacity(len);
    unit.push(first);
    for i in 1..len {
        unit.push((i % 251) as u8);
    }
    unit
}

#[test]
fn single_small_nal_single_packet() {
    let frame: [u8; 9] = [0x00, 0x00, 0x00, 0x05, 0x41, 0xAA, 0xBB, 0xCC, 0xDD];
    let mut session = session_at(0, 90_000);
    let packets = packetize_frame(&frame, &mut session);
    assert_eq!(packets.len(), 1);
    let header = header_of(&packets[0]);
    assert_eq!(header.sequence_number, 1);
    assert_eq!(header.timestamp, 90_000);
    assert!(header.marker);
    assert_eq!(header.ssrc, 0x11223344);
    assert_eq!(&packets[0][12..], &[0x41u8, 0xAA, 0xBB, 0xCC, 0xDD][..]);
    assert_eq!(session.timestamp, 93_000);
    assert_eq!(session.current_sequence_num, 1);
}

#[test]
fn two_nal_units_in_one_frame() {
    let frame = avcc(&[vec![0x41, 1, 2, 3], vec![0x41, 4, 5, 6, 7, 8]]);
    let mut session = session_at(0, 7);
    let packets = packetize_frame(&frame, &mut session);
    assert_eq!(packets.len(), 2);
    let first = header_of(&packets[0]);
    let second = header_of(&packets[1]);
    assert_eq!(first.sequence_number, 1);
    assert_eq!(second.sequence_number, 2);
    assert_eq!(first.timestamp, 7);
    assert_eq!(second.timestamp, 7);
    assert!(!first.marker);
    assert!(second.marker);
    assert_eq!(&packets[0][12..], &[0x41u8, 1, 2, 3][..]);
    assert_eq!(&packets[1][12..], &[0x41u8, 4, 5, 6, 7, 8][..]);
}

#[test]
fn large_nal_fragmentation() {
    let unit = patterned(2500, 0x65);
    let mut session = session_at(10, 1234);
    let packets = get_fragments(&unit, &mut session, true);
    assert_eq!(packets.len(), 3);
    assert_eq!(packets[0].len(), 12 + 2 + 1200);
    assert_eq!(packets[1].len(), 12 + 2 + 1200);
    assert_eq!(packets[2].len(), 12 + 2 + 99);
    for packet in packets.iter() {
        assert_eq!(packet[12], 0x7C);
    }
    assert_eq!(packets[0][13], 0x85);
    assert_eq!(packets[1][13], 0x05);
    assert_eq!(packets[2][13], 0x45);
    assert_eq!(&packets[0][14..], &unit[1..1201]);
    assert_eq!(&packets[1][14..], &unit[1201..2401]);
    assert_eq!(&packets[2][14..], &unit[2401..2500]);
    assert_eq!(session.timestamp, 1234);
    assert_eq!(session.current_sequence_num, 13);
    let markers: Vec<bool> = packets.iter().map(|p| header_of(p).marker).collect();
    assert_eq!(markers, vec![false, false, true]);
    let sequence: Vec<u16> = packets.iter().map(|p| header_of(p).sequence_number).collect();
    assert_eq!(sequence, vec![11, 12, 13]);
}

#[test]
fn fragments_of_a_unit_that_is_not_last_carry_no_marker() {
    let unit = patterned(1300, 0x65);
    let mut session = session_at(0, 0);
    let packets = get_fragments(&unit, &mut session, false);
    assert_eq!(packets.len(), 2);
    assert!(!header_of(&packets[0]).marker);
    assert!(!header_of(&packets[1]).marker);
}

#[test]
fn unit_of_exactly_the_limit_goes_out_whole() {
    let unit = patterned(1200, 0x41);
    let mut session = session_at(0, 0);
    let packets = get_fragments(&unit, &mut session, true);
    assert_eq!(packets.len(), 1);
    assert_eq!(&packets[0][12..], &unit[..]);
}

#[test]
fn unit_one_over_the_limit_is_one_fragment_with_start_and_end() {
    let unit = patterned(1201, 0x65);
    let mut session = session_at(0, 0);
    let packets = get_fragments(&unit, &mut session, true);
    assert_eq!(packets.len(), 1);
    assert_eq!(packets[0][12], 0x7C);
    assert_eq!(packets[0][13], 0xC5);
    assert_eq!(&packets[0][14..], &unit[1..]);
    assert!(header_of(&packets[0]).marker);
}

#[test]
fn unit_of_two_full_fragments() {
    let unit = patterned(2401, 0x25);
    let mut session = session_at(0, 0);
    let packets = get_fragments(&unit, &mut session, true);
    assert_eq!(packets.len(), 2);
    assert_eq!(packets[0][12], 0x3C);
    assert_eq!(packets[0][13], 0x85);
    assert_eq!(packets[1][13], 0x45);
    assert_eq!(packets[1].len(), 12 + 2 + 1200);
}

#[test]
fn nal_units_are_split_at_their_lengths() {
    let frame = avcc(&[vec![1, 2, 3], vec![4], vec![5, 6]]);
    let units = get_nal_units(&frame);
    assert_eq!(units.len(), 3);
    assert_eq!(units[0], &[1u8, 2, 3][..]);
    assert_eq!(units[1], &[4u8][..]);
    assert_eq!(units[2], &[5u8, 6][..]);
}

#[test]
fn splitting_stops_at_a_zero_length() {
    let mut frame = avcc(&[vec![1, 2]]);
    frame.extend_from_slice(&[0, 0, 0, 0]);
    frame.extend_from_slice(&avcc(&[vec![3]]));
    let units = get_nal_units(&frame);
    assert_eq!(units.len(), 1);
    assert_eq!(units[0], &[1u8, 2][..]);
}

#[test]
fn splitting_stops_at_a_unit_that_is_cut_short() {
    let mut frame = avcc(&[vec![1, 2]]);
    frame.extend_from_slice(&[0, 0, 0, 5, 9, 9]);
    let units = get_nal_units(&frame);
    assert_eq!(units.len(), 1);
}

#[test]
fn splitting_ignores_a_tail_too_short_for_a_length() {
    let mut frame = avcc(&[vec![7]]);
    frame.extend_from_slice(&[0, 0, 1]);
    assert_eq!(get_nal_units(&frame).len(), 1);
    assert_eq!(get_nal_units(&[]).len(), 0);
    assert_eq!(get_nal_units(&[0, 0, 0]).len(), 0);
    assert_eq!(get_nal_units(&[0, 0, 0, 1]).len(), 0);
}

#[test]
fn splitting_reads_lengths_beyond_the_frame_without_overflow() {
    let frame: [u8; 6] = [0xFF, 0xFF, 0xFF, 0xFF, 1, 2];
    assert_eq!(get_nal_units(&frame).len(), 0);
}

#[test]
fn empty_frame_sends_nothing_but_still_ticks() {
    let mut session = session_at(5, 100);
    let packets = packetize_frame(&[], &mut session);
    assert_eq!(packets.len(), 0);
    assert_eq!(session.current_sequence_num, 5);
    assert_eq!(session.timestamp, 3100);
}

#[test]
fn burst_has_consecutive_sequence_numbers_across_wraparound() {
    let frame = avcc(&[patterned(3000, 0x65), vec![0x41, 1], patterned(1500, 0x61)]);
    let mut session = session_at(65533, 42);
    let packets = packetize_frame(&frame, &mut session);
    assert_eq!(packets.len(), 6);
    let sequence: Vec<u16> = packets.iter().map(|p| header_of(p).sequence_number).collect();
    assert_eq!(sequence, vec![65534, 65535, 0, 1, 2, 3]);
    assert_eq!(session.current_sequence_num, 3);
}

#[test]
fn frame_shares_one_timestamp_and_the_next_frame_is_one_increment_on() {
    let frame = avcc(&[patterned(1300, 0x65), vec![0x41, 1]]);
    let mut session = session_at(0, u32::MAX - 10);
    let first = packetize_frame(&frame, &mut session);
    let second = packetize_frame(&frame, &mut session);
    for packet in first.iter() {
        assert_eq!(header_of(packet).timestamp, u32::MAX - 10);
    }
    for packet in second.iter() {
        assert_eq!(header_of(packet).timestamp, 2989);
    }
}

#[test]
fn exactly_the_last_packet_of_a_frame_has_the_marker() {
    let frame = avcc(&[vec![0x41, 1], patterned(2500, 0x65), vec![0x41, 2]]);
    let mut session = session_at(0, 0);
    let packets = packetize_frame(&frame, &mut session);
    assert_eq!(packets.len(), 5);
    let marked: Vec<usize> =
        (0..packets.len()).filter(|i| header_of(&packets[*i]).marker).collect();
    assert_eq!(marked, vec![4]);
}

#[test]
fn avcc_frame_survives_packetizing_and_depacketizing() {
    let frame = avcc(&[
        vec![0x67, 1, 2, 3],
        patterned(2500, 0x65),
        vec![0x41],
        patterned(1201, 0x41),
        patterned(1200, 0x01),
        patterned(3601, 0x7C),
    ]);
    let mut session = session_at(100, 0);
    let packets = packetize_frame(&frame, &mut session);
    let payloads: Vec<Bytes> = packets.iter().map(|p| p.slice(12..)).collect();
    let back = rtp_to_avcc_h264(payloads);
    assert_eq!(&back[..], &frame[..]);
}

#[test]
fn fragmented_unit_loses_its_top_bit_on_the_way() {
    let unit = patterned(1201, 0x85);
    let frame = avcc(&[unit.clone()]);
    let mut session = session_at(0, 0);
    let packets = packetize_frame(&frame, &mut session);
    let payloads: Vec<Bytes> = packets.iter().map(|p| p.slice(12..)).collect();
    let back = rtp_to_avcc_h264(payloads);
    assert_eq!(back.len(), frame.len());
    assert_eq!(back[4], 0x05);
    assert_eq!(&back[5..], &frame[5..]);
}
