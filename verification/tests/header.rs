use bytes::BufMut;
use bytes::BytesMut;
use rtp::address::SocketAddress;
use rtp::error::RtpError;
use rtp::packets::rtp::RTPHeader;
use rtp::packets::rtp::RTPSession;

fn sample_header() -> RTPHeader {
    RTPHeader {
        version: 2,
        padding: false,
        extension: true,
        marker: true,
        payload_type: 96,
        sequence_number: 0x1234,
        timestamp: 0xDEADBEEF,
        ssrc: 0x01020304,
    }
}

fn plain_session(sequence: u16, timestamp: u32) -> RTPSession {
    RTPSession {
        current_sequence_num: sequence,
        timestamp,
        increment: 3000,
        ssrc: 1,
        local_addr: SocketAddress::v4(0x7f00_0001, 5004),
        rtcp_addr: SocketAddress::v4(0x7f00_0001, 5005),
    }
}

#[test]
fn header_serializes_to_twelve_octets_in_network_order() {
    let wire = sample_header().serialize();
    let expected: [u8; 12] =
        [0x90, 0xE0, 0x12, 0x34, 0xDE, 0xAD, 0xBE, 0xEF, 0x01, 0x02, 0x03, 0x04];
    assert_eq!(&wire[..], &expected[..]);
}

#[test]
fn header_round_trip() {
    let header = sample_header();
    let mut wire = header.serialize();
    let back = RTPHeader::deserialize(&mut wire);
    assert_eq!(back, Ok(header));
    assert_eq!(wire.len(), 0);
}

#[test]
fn header_round_trip_over_flag_combinations() {
    for bits in 0u8..8 {
        let header = RTPHeader {
            version: 2,
            padding: bits & 1 != 0,
            extension: bits & 2 != 0,
            marker: bits & 4 != 0,
            payload_type: 127,
            sequence_number: 65535,
            timestamp: u32::MAX,
            ssrc: 0,
        };
        let mut wire = header.serialize();
        assert_eq!(RTPHeader::deserialize(&mut wire), Ok(header));
    }
}

#[test]
fn encoder_always_writes_version_two() {
    let mut header = sample_header();
    header.version = 1;
    let wire = header.serialize();
    assert_eq!(wire[0] >> 6, 2);
}

#[test]
fn payload_type_of_eight_bits_does_not_round_trip() {
    let mut header = sample_header();
    header.marker = false;
    header.payload_type = 200;
    let mut wire = header.serialize();
    let back = RTPHeader::deserialize(&mut wire).unwrap();
    assert!(back.marker);
    assert_eq!(back.payload_type, 72);
}

#[test]
fn deserialize_leaves_the_payload_behind() {
    let mut packet = sample_header().serialize();
    packet.put_slice(&[9, 8, 7]);
    let header = RTPHeader::deserialize(&mut packet).unwrap();
    assert_eq!(header, sample_header());
    assert_eq!(&packet[..], &[9u8, 8, 7][..]);
}

#[test]
fn deserialize_reads_every_field() {
    let mut packet = BytesMut::new();
    packet.put_slice(&[0xA0, 0x21, 0x00, 0x07, 0x00, 0x00, 0x0B, 0xB8, 0xCA, 0xFE, 0xBA, 0xBE]);
    let header = RTPHeader::deserialize(&mut packet).unwrap();
    assert_eq!(header.version, 2);
    assert!(header.padding);
    assert!(!header.extension);
    assert!(!header.marker);
    assert_eq!(header.payload_type, 0x21);
    assert_eq!(header.sequence_number, 7);
    assert_eq!(header.timestamp, 3000);
    assert_eq!(header.ssrc, 0xCAFEBABE);
}

#[test]
fn short_buffer_is_a_malformed_header() {
    let mut packet = BytesMut::new();
    packet.put_slice(&[0x80, 0, 0, 1, 0, 0, 0, 0, 0, 0, 0]);
    assert_eq!(RTPHeader::deserialize(&mut packet), Err(RtpError::MalformedHeader));
    assert_eq!(packet.len(), 11);
    let mut empty = BytesMut::new();
    assert_eq!(RTPHeader::deserialize(&mut empty), Err(RtpError::MalformedHeader));
}

#[test]
fn session_hands_out_consecutive_sequence_numbers() {
    let mut session = plain_session(0, 500);
    let first = session.get_packet(false);
    let second = session.get_packet(true);
    assert_eq!(first.sequence_number, 1);
    assert_eq!(second.sequence_number, 2);
    assert!(!first.marker);
    assert!(second.marker);
    assert_eq!(first.timestamp, 500);
    assert_eq!(second.timestamp, 500);
    assert_eq!(first.version, 2);
    assert_eq!(first.payload_type, 0);
    assert_eq!(first.ssrc, 1);
    assert!(!first.padding && !first.extension);
}

#[test]
fn session_sequence_number_wraps() {
    let mut session = plain_session(65535, 0);
    assert_eq!(session.get_packet(false).sequence_number, 0);
    assert_eq!(session.current_sequence_num, 0);
}

#[test]
fn session_timestamp_advances_by_increment_and_wraps() {
    let mut session = plain_session(0, 0);
    session.next_packet();
    assert_eq!(session.timestamp, 3000);
    session.timestamp = u32::MAX - 999;
    session.next_packet();
    assert_eq!(session.timestamp, 2000);
}

#[test]
fn new_session_starts_at_zero() {
    let local = SocketAddress::v4(0x0a00_0001, 4000);
    let rtcp = SocketAddress::v6(1, 4001);
    let session = RTPSession::new(3000, local, rtcp);
    assert_eq!(session.current_sequence_num, 0);
    assert_eq!(session.timestamp, 0);
    assert_eq!(session.increment, 3000);
    assert_eq!(session.local_addr, local);
    assert_eq!(session.rtcp_addr, rtcp);
}

#[test]
fn error_messages_name_the_error() {
    assert_eq!(RtpError::MalformedHeader.message(), "malformed RTP header");
    assert_eq!(RtpError::UnknownPeer.message(), "unknown peer");
    assert_eq!(RtpError::AddressParse.message(), "bad signaling field");
    assert_eq!(RtpError::MissingSpecs.message(), "codec parameters not announced");
    assert_eq!(RtpError::DuplicateStreamInit.message(), "stream already initialized");
}
