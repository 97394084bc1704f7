//! The RTCP sender report: what a sender says of its own stream, followed
//! by reception report blocks.
//!
//! ```text
//!         0                   1                   2                   3
//!         0 1 2 3 4 5 6 7 8 9 0 1 2 3 4 5 6 7 8 9 0 1 2 3 4 5 6 7 8 9 0 1
//!        +-+-+-+-+-+-+-+-+-+-+-+-+-+-+-+-+-+-+-+-+-+-+-+-+-+-+-+-+-+-+-+-+
//!        |                         SSRC of sender                        |
//!        +=+=+=+=+=+=+=+=+=+=+=+=+=+=+=+=+=+=+=+=+=+=+=+=+=+=+=+=+=+=+=+=+
//! sender |              NTP timestamp, most significant word             |
//! info   +-+-+-+-+-+-+-+-+-+-+-+-+-+-+-+-+-+-+-+-+-+-+-+-+-+-+-+-+-+-+-+-+
//!        |             NTP timestamp, least significant word             |
//!        +-+-+-+-+-+-+-+-+-+-+-+-+-+-+-+-+-+-+-+-+-+-+-+-+-+-+-+-+-+-+-+-+
//!        |                         RTP timestamp                         |
//!        +-+-+-+-+-+-+-+-+-+-+-+-+-+-+-+-+-+-+-+-+-+-+-+-+-+-+-+-+-+-+-+-+
//!        |                     sender's packet count                     |
//!        +-+-+-+-+-+-+-+-+-+-+-+-+-+-+-+-+-+-+-+-+-+-+-+-+-+-+-+-+-+-+-+-+
//!        |                      sender's octet count                     |
//!        +=+=+=+=+=+=+=+=+=+=+=+=+=+=+=+=+=+=+=+=+=+=+=+=+=+=+=+=+=+=+=+=+
//! report |                 SSRC_1 (SSRC of first source)                 |
//! block  +-+-+-+-+-+-+-+-+-+-+-+-+-+-+-+-+-+-+-+-+-+-+-+-+-+-+-+-+-+-+-+-+
//!   1    :                               ...                             :
//!        +=+=+=+=+=+=+=+=+=+=+=+=+=+=+=+=+=+=+=+=+=+=+=+=+=+=+=+=+=+=+=+=+
//! ```

use crate::buffer::be32;
use crate::buffer::be64;
use crate::buffer::bytes_mut_seq;
use crate::buffer::from_be32;
use crate::buffer::from_be64;
use crate::buffer::get_u32;
use crate::buffer::get_u64;
use crate::buffer::mut_as_slice;
use crate::buffer::new_buffer;
use crate::buffer::put_slice;
use crate::buffer::put_u32;
use crate::buffer::put_u64;
use crate::packets::rtcp::reception_report::ReceptionReport;
use bytes::BytesMut;
use vstd::prelude::*;

verus! {

/// Length on the wire of what a sender report holds before its blocks.
pub const SENDER_INFO_LENGTH: usize = 24;

/// A sender report.
pub struct SenderReport {
    pub ssrc: u32,
    pub ntp_time: u64,
    pub rtp_time: u32,
    pub packet_count: u32,
    pub octet_count: u32,
    pub reports: Vec<ReceptionReport>,
}

/// A sender report as a value.
pub struct SenderReportView {
    pub ssrc: u32,
    pub ntp_time: u64,
    pub rtp_time: u32,
    pub packet_count: u32,
    pub octet_count: u32,
    pub reports: Seq<ReceptionReport>,
}

impl View for SenderReport {
    type V = SenderReportView;

    open spec fn view(&self) -> SenderReportView {
        SenderReportView {
            ssrc: self.ssrc,
            ntp_time: self.ntp_time,
            rtp_time: self.rtp_time,
            packet_count: self.packet_count,
            octet_count: self.octet_count,
            reports: self.reports@,
        }
    }
}

/// The blocks of a report on the wire, one after the other.
pub open spec fn blocks_wire(reports: Seq<ReceptionReport>) -> Seq<u8>
    decreases reports.len(),
{
    if reports.len() == 0 {
        Seq::empty()
    } else {
        blocks_wire(reports.drop_last()) + reports.last().wire()
    }
}

impl SenderReportView {
    /// The report on the wire: the sender's words in 24 octets, then the
    /// blocks.
    pub open spec fn wire(self) -> Seq<u8> {
        be32(self.ssrc) + be64(self.ntp_time) + be32(self.rtp_time) + be32(self.packet_count)
            + be32(self.octet_count) + blocks_wire(self.reports)
    }

    /// The report with `count` blocks that the front of `s` spells.
    pub open spec fn parse(s: Seq<u8>, count: u8) -> SenderReportView
        recommends
            s.len() >= 24 + 24 * count,
    {
        SenderReportView {
            ssrc: from_be32(s),
            ntp_time: from_be64(s.skip(4)),
            rtp_time: from_be32(s.skip(12)),
            packet_count: from_be32(s.skip(16)),
            octet_count: from_be32(s.skip(20)),
            reports: Seq::new(count as nat, |i: int| ReceptionReport::parse(s.skip(24 + 24 * i))),
        }
    }
}

impl SenderReport {
    /// Writes the report in its wire format.
    pub fn serialize(&self) -> (buf: BytesMut)
        ensures
            bytes_mut_seq(buf) == self@.wire(),
    {
        let mut buf = new_buffer();
        put_u32(&mut buf, self.ssrc);
        put_u64(&mut buf, self.ntp_time);
        put_u32(&mut buf, self.rtp_time);
        put_u32(&mut buf, self.packet_count);
        put_u32(&mut buf, self.octet_count);
        let ghost head = bytes_mut_seq(buf);
        let mut k: usize = 0;
        assert(self.reports@.take(0) =~= Seq::<ReceptionReport>::empty());
        assert(head + blocks_wire(self.reports@.take(0)) =~= head);
        while k < self.reports.len()
            invariant
                k <= self.reports@.len(),
                bytes_mut_seq(buf) == head + blocks_wire(self.reports@.take(k as int)),
            decreases self.reports@.len() - k,
        {
            let block = self.reports[k].serialize();
            put_slice(&mut buf, mut_as_slice(&block));
            proof {
                let next = self.reports@.take(k + 1);
                assert(next.drop_last() =~= self.reports@.take(k as int));
                assert(next.last() == self.reports@[k as int]);
                assert(bytes_mut_seq(buf) =~= head + blocks_wire(next));
            }
            k = k + 1;
        }
        assert(self.reports@.take(k as int) =~= self.reports@);
        buf
    }

    /// Reads a report with `report_counts` blocks off the front of
    /// `packet`, which must hold all of it.
    pub fn deserialize(packet: &mut BytesMut, report_counts: u8) -> (report: SenderReport)
        requires
            bytes_mut_seq(*old(packet)).len() >= 24 + 24 * report_counts,
        ensures
            report@ == SenderReportView::parse(bytes_mut_seq(*old(packet)), report_counts),
            bytes_mut_seq(*final(packet)) == bytes_mut_seq(*old(packet)).skip(
                24 + 24 * report_counts,
            ),
    {
        let ghost s = bytes_mut_seq(*packet);
        let ssrc = get_u32(packet);
        let ntp_time = get_u64(packet);
        assert(bytes_mut_seq(*packet) =~= s.skip(12));
        let rtp_time = get_u32(packet);
        assert(bytes_mut_seq(*packet) =~= s.skip(16));
        let packet_count = get_u32(packet);
        assert(bytes_mut_seq(*packet) =~= s.skip(20));
        let octet_count = get_u32(packet);
        assert(bytes_mut_seq(*packet) =~= s.skip(24));
        let mut reports: Vec<ReceptionReport> = Vec::new();
        let mut k: u8 = 0;
        while k < report_counts
            invariant
                k <= report_counts,
                s.len() >= 24 + 24 * report_counts,
                reports@.len() == k,
                bytes_mut_seq(*packet) == s.skip(24 + 24 * k),
                forall|i: int|
                    0 <= i < k ==> #[trigger] reports@[i] == ReceptionReport::parse(
                        s.skip(24 + 24 * i),
                    ),
            decreases report_counts - k,
        {
            let reception_report = ReceptionReport::deserialize(packet);
            reports.push(reception_report);
            assert(bytes_mut_seq(*packet) =~= s.skip(24 + 24 * (k + 1)));
            k = k + 1;
        }
        let report = SenderReport { ssrc, ntp_time, rtp_time, packet_count, octet_count, reports };
        assert(report@.reports =~= SenderReportView::parse(s, report_counts).reports);
        report
    }

    /// Reads a report with `report_counts` blocks off the front of `packet`
    /// where it holds all of it. A shorter packet gives nothing and is left
    /// as it was.
    pub fn try_deserialize(packet: &mut BytesMut, report_counts: u8) -> (report: Option<
        SenderReport,
    >)
        ensures
            match report {
                Some(r) => bytes_mut_seq(*old(packet)).len() >= 24 + 24 * report_counts && r@
                    == SenderReportView::parse(bytes_mut_seq(*old(packet)), report_counts)
                    && bytes_mut_seq(*final(packet)) == bytes_mut_seq(*old(packet)).skip(
                    24 + 24 * report_counts,
                ),
                None => bytes_mut_seq(*old(packet)).len() < 24 + 24 * report_counts
                    && bytes_mut_seq(*final(packet)) == bytes_mut_seq(*old(packet)),
            },
    {
        let needed: usize = SENDER_INFO_LENGTH + 24 * (report_counts as usize);
        if mut_as_slice(packet).len() < needed {
            None
        } else {
            Some(SenderReport::deserialize(packet, report_counts))
        }
    }
}

} // verus!
