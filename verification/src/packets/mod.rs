//! Packet formats: the RTP fixed header and the RTCP report blocks.

pub mod rtcp;
pub mod rtp;
