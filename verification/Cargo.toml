[package]
name = "pow_ledger"
version = "0.1.0"
edition = "2021"
publish = false

[dependencies]
sha2 = "0.10"
hex = "0.4"
secp256k1 = { version = "0.29", features = ["rand-std", "serde"] }
uuid = { version = "1", features = ["v4", "serde"] }
bincode = "1"
serde = { version = "1", features = ["derive"] }
serde_json = "1"
axum = { version = "0.7", features = ["ws"] }
tokio = { version = "1", features = ["full"] }
reqwest = { version = "0.12", default-features = false, features = ["json"] }
futures-util = "0.3"
tokio-stream = "0.1"
