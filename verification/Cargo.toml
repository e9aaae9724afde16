[package]
name = "mutinyd"
version = "0.1.0"
edition = "2021"
publish = false

[dependencies]
clap = { version = "*", features = ["derive"] }
error_set = "*"
libp2p = { version = "*", default-features = false, features = ["ed25519", "identify", "macros", "mdns", "noise", "request-response", "cbor", "tcp", "tokio", "yamux"] }
rusqlite = { version = "*", features = ["bundled"] }
serde = { version = "*", features = ["derive"] }
serde_json = "*"
tokio = { version = "*", features = ["full"] }
uuid = { version = "*", features = ["v4"] }
