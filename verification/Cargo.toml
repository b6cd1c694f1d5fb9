[package]
name = "imaginator"
version = "0.1.0"
edition = "2021"
publish = false

[dependencies]
base64 = "0.13"
rust-crypto = "0.2"
linked-hash-map = "0.5"
serde = { version = "1", features = ["derive"] }
serde_yaml = "0.9"
