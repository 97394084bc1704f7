//! The RTCP packet formats: the common header, and the sender report with
//! its reception report blocks.

pub mod reception_report;
pub mod rtcp_header;
pub mod sender_report;
