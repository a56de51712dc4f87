[package]
name = "backend"
version = "0.1.0"
edition = "2021"
publish = false

[dependencies]
regex-syntax = "=0.8.11"
lava_torrent = "=0.11.1"
serde_json = "=1.0.154"
urlencoding = "=2.1.3"
reqwest = { version = "=0.12.28", default-features = false }
