[package]
name = "massa"
version = "0.1.0"
edition = "2021"
publish = false

[dependencies]
bitcoin_hashes = "0.11"
bs58 = { version = "0.4", features = ["check"] }
secp256k1 = "0.20"
serde = { version = "1", features = ["derive"] }
serde_json = "1"
tracing = "0.1"
tokio = { version = "1", features = ["sync", "time", "macros", "rt"] }
parking_lot = "0.12"
