[package]
name = "uabo"
version = "0.1.0"
edition = "2021"
publish = false

[dependencies]
blake3 = { version = "=1.8.7", features = ["pure"] }
clap = "=2.34.0"
log = "=0.4.34"
lz4 = "=1.28.1"
rust-lzma = "*"
serde = { version = "=1.0.229", features = ["derive"] }
serde_json = "=1.0.154"
