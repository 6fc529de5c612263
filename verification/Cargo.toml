[package]
name = "voice"
version = "0.1.0"
edition = "2021"
publish = false

[dependencies]
dirs = "*"
anyhow = "*"
log = "*"
env_logger = "*"
serde = { version = "*", features = ["derive"] }
toml = "*"
cpal = "*"
reqwest = { version = "0.12", default-features = false, features = ["blocking", "rustls-tls"] }
whisper-rs = "*"
