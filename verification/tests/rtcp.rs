use bytes::BufMut;
use bytes::BytesMut;
use rtp::packets::rtcp::reception_report::ReceptionReport;
use rtp::packets::rtcp::rtcp_header::PacketType;
use rtp::packets::rtcp::rtcp_header::RTCPHeader;
use rtp::packets::rtcp::sender_report::SenderReport;

fn report(seed: u32) -> ReceptionReport {
    ReceptionReport {
        ssrc: 0x1000_0000 + seed,
        fraction_lost: seed as u8,
        total_lost: 0x00AB_CD00 + seed,
        last_sequence_number: 0x0001_0000 + seed,
        jitter: 77 + seed,
        last_sender_report: 0xFEED_0000 + seed,
        delay: 5 + seed,
    }
}

#[test]
fn packet_types_have_their_codes() {
    let kinds = [
        (PacketType::SenderReport, 200u8),
        (PacketType::ReceiverReport, 201),
        (PacketType::SourceDescription, 202),
        (PacketType::Goodbye, 203),
        (PacketType::ApplicationDefined, 204),
        (PacketType::TransportSpecificFeedback, 205),
        (PacketType::PayloadSpecificFeedback, 206),
        (PacketType::ExtendedReport, 207),
        (PacketType::Unsupported, 0),
    ];
    for (kind, code) in kinds {
        assert_eq!(kind.code(), code);
        assert_eq!(PacketType::from(code), kind);
    }
    assert_eq!(PacketType::from(199), PacketType::Unsupported);
    assert_eq!(PacketType::from(208), PacketType::Unsupported);
    assert_eq!(PacketType::from(255), PacketType::Unsupported);
}

#[test]
fn rtcp_header_wire_format() {
    let header = RTCPHeader {
        padding: true,
        count: 3,
        packet_type: PacketType::SenderReport,
        length: 0x0102,
    };
    let wire = header.serialize();
    assert_eq!(&wire[..], &[0xA3u8, 200, 1, 2][..]);
}

#[test]
fn rtcp_header_round_trip() {
    for count in 0u8..32 {
        let header = RTCPHeader {
            padding: count % 2 == 0,
            count,
            packet_type: PacketType::from(200 + count % 9),
            length: 1000 + count as u16,
        };
        let mut wire = header.serialize();
        assert_eq!(RTCPHeader::deserialize(&mut wire), header);
        assert_eq!(wire.len(), 0);
    }
}

#[test]
fn rtcp_header_reads_the_front_only() {
    let mut packet = BytesMut::new();
    packet.put_slice(&[0x81, 203, 0, 1, 9, 9]);
    let header = RTCPHeader::deserialize(&mut packet);
    assert!(!header.padding);
    assert_eq!(header.count, 1);
    assert_eq!(header.packet_type, PacketType::Goodbye);
    assert_eq!(header.length, 1);
    assert_eq!(&packet[..], &[9u8, 9][..]);
}

#[test]
fn reception_report_wire_format() {
    let r = ReceptionReport {
        ssrc: 0x01020304,
        fraction_lost: 0x05,
        total_lost: 0x060708,
        last_sequence_number: 0x090A0B0C,
        jitter: 0x0D0E0F10,
        last_sender_report: 0x11121314,
        delay: 0x15161718,
    };
    let wire = r.serialize();
    let expected: Vec<u8> = (1u8..=24).collect();
    assert_eq!(&wire[..], &expected[..]);
}

#[test]
fn reception_report_round_trip() {
    let r = report(9);
    let mut wire = r.serialize();
    assert_eq!(ReceptionReport::deserialize(&mut wire), r);
    assert_eq!(wire.len(), 0);
}

#[test]
fn reception_report_keeps_24_bits_of_the_loss_count() {
    let mut r = report(0);
    r.total_lost = 0xFF12_3456;
    let mut wire = r.serialize();
    assert_eq!(ReceptionReport::deserialize(&mut wire).total_lost, 0x12_3456);
}

#[test]
fn sender_report_wire_format() {
    let s = SenderReport {
        ssrc: 0x01020304,
        ntp_time: 0x05060708_090A0B0C,
        rtp_time: 0x0D0E0F10,
        packet_count: 0x11121314,
        octet_count: 0x15161718,
        reports: Vec::new(),
    };
    let wire = s.serialize();
    let expected: Vec<u8> = (1u8..=24).collect();
    assert_eq!(&wire[..], &expected[..]);
}

#[test]
fn sender_report_round_trip_with_blocks() {
    let s = SenderReport {
        ssrc: 1,
        ntp_time: u64::MAX - 5,
        rtp_time: 3,
        packet_count: 4,
        octet_count: 5,
        reports: vec![report(1), report(2), report(3)],
    };
    let mut wire = s.serialize();
    assert_eq!(wire.len(), 24 + 3 * 24);
    wire.put_slice(&[0xEE]);
    let back = SenderReport::deserialize(&mut wire, 3);
    assert_eq!(back.ssrc, 1);
    assert_eq!(back.ntp_time, u64::MAX - 5);
    assert_eq!(back.rtp_time, 3);
    assert_eq!(back.packet_count, 4);
    assert_eq!(back.octet_count, 5);
    assert_eq!(back.reports, vec![report(1), report(2), report(3)]);
    assert_eq!(&wire[..], &[0xEEu8][..]);
}

#[test]
fn sender_report_without_blocks() {
    let s = SenderReport {
        ssrc: 9,
        ntp_time: 8,
        rtp_time: 7,
        packet_count: 6,
        octet_count: 5,
        reports: Vec::new(),
    };
    let mut wire = s.serialize();
    let back = SenderReport::deserialize(&mut wire, 0);
    assert_eq!(back.reports.len(), 0);
    assert_eq!(back.ntp_time, 8);
}
