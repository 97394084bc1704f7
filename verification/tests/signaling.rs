use bytes::Bytes;
use rtp::address::SocketAddress;
use rtp::error::RtpError;
use rtp::interop::StreamType;
use rtp::session_management::peer_manager::PeerManager;
use rtp::session_management::signaling_server::handle_request;
use rtp::session_management::signaling_server::register_peer;
use rtp::session_management::signaling_server::split_lines;
use rtp::session_management::signaling_server::write_response;
use rtp::session_management::signaling_server::H264Args;
use rtp::session_management::signaling_server::PeerSpecifications;

fn args(sps: &[u8], pps: &[u8]) -> H264Args {
    H264Args { sps: Bytes::copy_from_slice(sps), pps: Bytes::copy_from_slice(pps) }
}

#[test]
fn video_record_is_written_line_by_line() {
    let h264 = args(&[0x67, 1], &[0x68, 2, 3]);
    let peers: Vec<Vec<u8>> = vec![b"10.0.0.2:7000".to_vec(), b"10.0.0.3:7000".to_vec()];
    let record =
        write_response(b"video", b"10.0.0.1:7000", b"10.0.0.1:5004", 0x01020304, Some(&h264), &peers)
            .unwrap();
    let mut expected: Vec<u8> = Vec::new();
    expected.extend_from_slice(b"video\r\n10.0.0.1:7000\r\n10.0.0.1:5004\r\n");
    expected.extend_from_slice(&[1, 2, 3, 4]);
    expected.extend_from_slice(b"\r\n");
    expected.extend_from_slice(&[0x68, 2, 3]);
    expected.extend_from_slice(b"\r\n");
    expected.extend_from_slice(&[0x67, 1]);
    expected.extend_from_slice(b"\r\n10.0.0.2:7000\r\n10.0.0.3:7000");
    assert_eq!(&record[..], &expected[..]);
}

#[test]
fn video_record_without_peers_ends_with_the_sps() {
    let h264 = args(&[0x67], &[0x68]);
    let record = write_response(b"video", b"a", b"b", 1, Some(&h264), &Vec::new()).unwrap();
    assert_eq!(&record[..], &b"video\r\na\r\nb\r\n\x00\x00\x00\x01\r\n\x68\r\n\x67"[..]);
}

#[test]
fn audio_record_is_the_head_only() {
    let h264 = args(&[0x67], &[0x68]);
    let peers: Vec<Vec<u8>> = vec![b"x".to_vec()];
    let record = write_response(b"audio", b"a", b"b", 258, Some(&h264), &peers).unwrap();
    assert_eq!(&record[..], &b"audio\r\na\r\nb\r\n\x00\x00\x01\x02\r\n"[..]);
}

#[test]
fn unknown_media_type_is_a_bad_field() {
    let h264 = args(&[0x67], &[0x68]);
    let res = write_response(b"text", b"a", b"b", 1, Some(&h264), &Vec::new());
    assert!(matches!(res, Err(RtpError::AddressParse)));
    let res = write_response(b"text", b"a", b"b", 1, None, &Vec::new());
    assert!(matches!(res, Err(RtpError::AddressParse)));
}

#[test]
fn record_is_refused_before_the_codec_parameters_are_announced() {
    let res = write_response(b"video", b"a", b"b", 1, None, &Vec::new());
    assert!(matches!(res, Err(RtpError::MissingSpecs)));
    let res = write_response(b"audio", b"a", b"b", 1, None, &Vec::new());
    assert!(matches!(res, Err(RtpError::MissingSpecs)));
}

#[test]
fn lines_are_split_at_line_feeds_and_lose_their_carriage_return() {
    let lines = split_lines(b"one\r\ntwo\nthree\r\n");
    assert_eq!(lines.len(), 4);
    assert_eq!(lines[0], &b"one"[..]);
    assert_eq!(lines[1], &b"two"[..]);
    assert_eq!(lines[2], &b"three"[..]);
    assert_eq!(lines[3], &b""[..]);
}

#[test]
fn splitting_keeps_empty_lines_and_inner_carriage_returns() {
    let lines = split_lines(b"\n\r\na\rb\r\r\n\r");
    assert_eq!(lines.len(), 4);
    assert_eq!(lines[0], &b""[..]);
    assert_eq!(lines[1], &b""[..]);
    assert_eq!(lines[2], &b"a\rb\r"[..]);
    assert_eq!(lines[3], &b""[..]);
    let whole = split_lines(b"no line feed");
    assert_eq!(whole.len(), 1);
    assert_eq!(whole[0], &b"no line feed"[..]);
    let empty = split_lines(b"");
    assert_eq!(empty.len(), 1);
    assert_eq!(empty[0], &b""[..]);
}

#[test]
fn record_that_was_written_is_read_back() {
    let h264 = args(&[0x67, 0x42, 0x00], &[0x68, 0xCE]);
    let peers: Vec<Vec<u8>> = vec![b"192.168.1.7:9000".to_vec(), b"[::1]:9001".to_vec()];
    let wire = write_response(
        b"video",
        b"192.168.1.5:9000",
        b"192.168.1.5:5004",
        0xDEADBEEF,
        Some(&h264),
        &peers,
    )
    .unwrap();
    let lines = split_lines(&wire);
    let record = handle_request(&lines, lines[0]).unwrap();
    assert_eq!(record.media_type, StreamType::Video);
    assert_eq!(record.signaling_address, &b"192.168.1.5:9000"[..]);
    assert_eq!(record.rtp_address, &b"192.168.1.5:5004"[..]);
    assert_eq!(record.ssrc, 0xDEADBEEF);
    assert_eq!(record.pps, &[0x68u8, 0xCE][..]);
    assert_eq!(record.sps, &[0x67u8, 0x42, 0x00][..]);
    assert_eq!(record.peer_signaling_addresses.len(), 2);
    assert_eq!(record.peer_signaling_addresses[0], &b"192.168.1.7:9000"[..]);
    assert_eq!(record.peer_signaling_addresses[1], &b"[::1]:9001"[..]);
}

#[test]
fn request_with_too_few_lines_is_a_bad_field() {
    let lines: Vec<&[u8]> = vec![b"video", b"a", b"b", b"\x00\x00\x00\x01", b"pps"];
    assert!(matches!(handle_request(&lines, b"video"), Err(RtpError::AddressParse)));
    let none: Vec<&[u8]> = Vec::new();
    assert!(matches!(handle_request(&none, b"video"), Err(RtpError::AddressParse)));
}

#[test]
fn request_with_a_short_source_identifier_is_a_bad_field() {
    let lines: Vec<&[u8]> = vec![b"video", b"a", b"b", b"\x00\x00\x01", b"pps", b"sps"];
    assert!(matches!(handle_request(&lines, b"video"), Err(RtpError::AddressParse)));
}

#[test]
fn request_of_an_unknown_media_type_is_a_bad_field() {
    let lines: Vec<&[u8]> = vec![b"movie", b"a", b"b", b"\x00\x00\x00\x01", b"pps", b"sps"];
    assert!(matches!(handle_request(&lines, b"movie"), Err(RtpError::AddressParse)));
}

#[test]
fn request_of_six_lines_has_no_peers() {
    let lines: Vec<&[u8]> = vec![b"audio", b"a", b"b", b"\x01\x02\x03\x04\x05", b"p", b"s"];
    let record = handle_request(&lines, b"audio").unwrap();
    assert_eq!(record.media_type, StreamType::Audio);
    assert_eq!(record.ssrc, 0x01020304);
    assert_eq!(record.peer_signaling_addresses.len(), 0);
}

#[test]
fn source_identifier_with_a_line_feed_breaks_the_record() {
    let h264 = args(&[0x67], &[0x68]);
    let wire = write_response(b"video", b"a", b"b", 10, Some(&h264), &Vec::new()).unwrap();
    let lines = split_lines(&wire);
    assert!(matches!(handle_request(&lines, lines[0]), Err(RtpError::AddressParse)));
}

#[test]
fn specifications_keep_each_peer_once() {
    let mut specs = PeerSpecifications::new(args(&[1], &[2]));
    assert_eq!(specs.get_peers().len(), 0);
    specs.add_peer(SocketAddress::v4(1, 1));
    specs.add_peer(SocketAddress::v4(1, 2));
    specs.add_peer(SocketAddress::v4(1, 1));
    let mut ports: Vec<u16> = specs.get_peers().iter().map(|a| a.port).collect();
    ports.sort();
    assert_eq!(ports, vec![1, 2]);
}

#[test]
fn codec_parameters_are_replaced_and_peers_stay() {
    let mut specs = PeerSpecifications::new(args(&[1], &[2]));
    specs.add_peer(SocketAddress::v6(7, 7));
    assert_eq!(&specs.h264_args().sps[..], &[1u8][..]);
    assert_eq!(&specs.h264_args().pps[..], &[2u8][..]);
    specs.set_h264_args(args(&[3, 3], &[4]));
    assert_eq!(&specs.h264_args().sps[..], &[3u8, 3][..]);
    assert_eq!(&specs.h264_args().pps[..], &[4u8][..]);
    assert_eq!(specs.get_peers(), vec![SocketAddress::v6(7, 7)]);
}

#[test]
fn registering_a_peer_fills_both_the_registry_and_the_signaling_peers() {
    let mut manager = PeerManager::new(SocketAddress::v4(0, 1), 1);
    let mut specs = PeerSpecifications::new(args(&[1], &[2]));
    let media = SocketAddress::v4(5, 5004);
    let signaling = SocketAddress::v4(5, 9000);
    assert!(register_peer(&mut manager, &mut specs, 50, media, signaling, 11));
    assert!(!register_peer(&mut manager, &mut specs, 50, media, SocketAddress::v4(5, 9001), 12));
    assert!(!register_peer(&mut manager, &mut specs, 1, media, SocketAddress::v4(5, 9002), 13));
    assert_eq!(manager.get_peers(), vec![media]);
    assert_eq!(manager.get_context(50), Some(11));
    assert_eq!(specs.get_peers().len(), 3);
}
