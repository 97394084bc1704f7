//! Per-peer receive state and the registry of peers.

pub mod delay_calculator;
pub mod peer_manager;
pub mod signaling_server;
pub mod tables;
