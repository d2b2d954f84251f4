[package]
name = "oxiplay"
version = "0.1.0"
edition = "2021"
publish = false

[dependencies]
anyhow = "1"
crossbeam-channel = "0.5"
dirs = "6"
env_logger = "0.11"
ffmpeg-the-third = "4"
gif = "0.13"
log = "0.4"
png = "0.17"
serde = { version = "1", features = ["derive"] }
serde_json = "1"
ureq = { version = "2", default-features = false, features = ["tls"] }
