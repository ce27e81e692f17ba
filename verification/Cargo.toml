[package]
name = "nodp2p"
version = "0.1.0"
edition = "2021"
publish = false

[dependencies]
libp2p = { version = "0.54", features = ["tokio", "tcp", "noise", "yamux", "gossipsub", "mdns", "ping", "request-response", "json", "macros", "ed25519"] }
base64 = "0.22"
serde = { version = "1", features = ["derive"] }
tokio = { version = "1", features = ["full"] }
anyhow = "1"
clap = { version = "4", features = ["derive"] }
