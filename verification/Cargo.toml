[package]
name = "walletd"
version = "0.1.0"
edition = "2021"
publish = false

[dependencies]
miniscript = { version = "=10.2.3", features = ["base64"] }
serde_json = "=1.0.151"
