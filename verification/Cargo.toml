[package]
name = "yo_rs"
version = "0.2.5"
edition = "2021"
publish = false

[dependencies]
regex = "1"
rayon = "1"
serde = { version = "1", features = ["derive"] }
serde_json = "1"
toml = "0.8"
dirs = "5"
tokio = { version = "1", features = ["full"] }
anyhow = "1"
byteorder = "1"
chrono = "0.4"
rand = "0.8"
tempfile = "3"
hound = "3"
colored = "2"
env_logger = "0.11"
futures-util = "0.3"
rodio = "0.19"
cpal = "0.15"
whisper-rs = "*"
