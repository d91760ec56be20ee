[package]
name = "talk_to_me"
version = "0.1.0"
edition = "2021"
publish = false

[dependencies]
anyhow = "1"
cpal = "*"
dirs = "*"
ort = { version = "=2.0.0-rc.10", default-features = false, features = ["load-dynamic"] }
rubato = "0.16"
serde = { version = "1", features = ["derive"] }
serde_json = "1"
tracing = "0.1"
whisper-rs = "*"
