[package]
name = "chimera"
version = "0.1.0"
edition = "2021"
publish = false

[dependencies]
sha2 = "*"
cid = "*"
multihash-codetable = { version = "*", features = ["sha2"] }
serde = { version = "*", features = ["derive"] }
serde_json = "*"
rusqlite = { version = "*", features = ["bundled"] }
dirs = "*"
chrono = "*"
tokio = { version = "*", features = ["sync", "macros", "rt-multi-thread", "time"] }
libp2p = { version = "*", features = ["kad", "identify", "ping", "relay", "request-response", "cbor", "tcp", "noise", "yamux", "tokio", "macros"] }
