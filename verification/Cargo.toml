[package]
name = "nft-contract"
version = "0.1.0"
edition = "2021"
publish = false

[dependencies]
near-sdk = "3.1.0"
serde = { version = "1", features = ["derive"] }
