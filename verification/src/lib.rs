//! Peer-to-peer real-time video transport over RTP.
//!
//! The crate holds the packet pipeline and the per-peer playout engine:
//! the fixed RTP header codec, the sender session, H.264 packetization with
//! FU-A fragmentation, reassembly into AVCC frames, ordered playout buffers
//! that survive sequence-number wraparound, jitter and skew estimation, the
//! peer registry and the framing of signaling records. Sockets, clocks and
//! callbacks live with the caller, which hands in plain values.

pub mod buffer;
pub mod address;
pub mod error;
pub mod packets;
pub mod interop;
pub mod session_management;
