[package]
name = "notch"
version = "0.1.0"
edition = "2021"
publish = false

[dependencies]
borsh = { version = "1", features = ["derive"] }
solana-program = "~2.1"
solana-sdk = "~2.1"
serde_json = "1"
rand = "0.8"
tokio = { version = "1", default-features = false, features = ["rt", "rt-multi-thread", "macros"] }
