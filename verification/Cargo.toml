[package]
name = "rtp"
version = "0.1.0"
edition = "2021"
publish = false

[dependencies]
bytes = "1"
dashmap = "6"
rand = "0.9"
tokio = { version = "1", default-features = false, features = ["rt-multi-thread", "net", "sync", "io-util", "macros"] }
local-ip-address = "*"
