use bytes::Bytes;
use rtp::address::SocketAddress;
use rtp::interop::video::get_fragments;
use rtp::interop::video::rtp_to_avcc_h264;
use rtp::packets::rtp::RTPSession;

fn payload(bytes: &[u8]) -> Bytes {
    Bytes::copy_from_slice(bytes)
}

#[test]
fn single_nal_gets_a_length_prefix() {
    let out = rtp_to_avcc_h264(vec![payload(&[0x41, 0xAA, 0xBB])]);
    assert_eq!(&out[..], &[0u8, 0, 0, 3, 0x41, 0xAA, 0xBB][..]);
}

#[test]
fn single_nal_types_one_and_twenty_three_are_taken() {
    let out = rtp_to_avcc_h264(vec![payload(&[0x01]), payload(&[0xF7, 9])]);
    assert_eq!(&out[..], &[0u8, 0, 0, 1, 0x01, 0, 0, 0, 2, 0xF7, 9][..]);
}

#[test]
fn fragments_are_joined_at_the_end_flag() {
    let out = rtp_to_avcc_h264(vec![
        payload(&[0x7C, 0x85, 1, 2]),
        payload(&[0x7C, 0x05, 3]),
        payload(&[0x7C, 0x45, 4, 5]),
    ]);
    assert_eq!(&out[..], &[0u8, 0, 0, 6, 0x65, 1, 2, 3, 4, 5][..]);
}

#[test]
fn fragments_without_an_end_flag_yield_nothing() {
    let out = rtp_to_avcc_h264(vec![payload(&[0x7C, 0x85, 1, 2]), payload(&[0x7C, 0x05, 3])]);
    assert_eq!(out.len(), 0);
}

#[test]
fn missing_start_flag_is_tolerated() {
    let out = rtp_to_avcc_h264(vec![payload(&[0x5C, 0x01, 7]), payload(&[0x5C, 0x41, 8])]);
    assert_eq!(&out[..], &[0u8, 0, 0, 3, 0x41, 7, 8][..]);
}

#[test]
fn fragment_buffer_is_reset_after_each_unit() {
    let out = rtp_to_avcc_h264(vec![
        payload(&[0x7C, 0xC5, 1]),
        payload(&[0x41, 9]),
        payload(&[0x7C, 0xC1, 2]),
    ]);
    assert_eq!(
        &out[..],
        &[0u8, 0, 0, 2, 0x65, 1, 0, 0, 0, 2, 0x41, 9, 0, 0, 0, 2, 0x61, 2][..]
    );
}

#[test]
fn other_nal_types_are_ignored() {
    let out = rtp_to_avcc_h264(vec![
        payload(&[24, 1, 2]),
        payload(&[0x00, 1]),
        payload(&[29, 1]),
        payload(&[31]),
        payload(&[0x41, 5]),
    ]);
    assert_eq!(&out[..], &[0u8, 0, 0, 2, 0x41, 5][..]);
}

#[test]
fn payloads_too_short_to_read_are_passed_over() {
    let out = rtp_to_avcc_h264(vec![payload(&[]), payload(&[0x7C]), payload(&[0x41])]);
    assert_eq!(&out[..], &[0u8, 0, 0, 1, 0x41][..]);
}

#[test]
fn fragment_with_only_its_two_octets_ends_an_empty_unit() {
    let out = rtp_to_avcc_h264(vec![payload(&[0x7C, 0x45])]);
    assert_eq!(&out[..], &[0u8, 0, 0, 1, 0x65][..]);
}

#[test]
fn no_payloads_no_frame() {
    assert_eq!(rtp_to_avcc_h264(Vec::new()).len(), 0);
}

#[test]
fn fua_reconstruction_gives_length_and_first_octet() {
    let mut unit: Vec<u8> = vec![0x65];
    for i in 0..4999usize {
        unit.push((i % 256) as u8);
    }
    let mut session = RTPSession {
        current_sequence_num: 0,
        timestamp: 0,
        increment: 3000,
        ssrc: 1,
        local_addr: SocketAddress::v4(0, 0),
        rtcp_addr: SocketAddress::v4(0, 0),
    };
    let packets = get_fragments(&unit, &mut session, true);
    assert_eq!(packets.len(), 5);
    let payloads: Vec<Bytes> = packets.iter().map(|p| p.slice(12..)).collect();
    let out = rtp_to_avcc_h264(payloads);
    assert_eq!(&out[..4], &5000u32.to_be_bytes()[..]);
    assert_eq!(out[4], (3 << 5) | 5);
    assert_eq!(&out[5..], &unit[1..]);
}
