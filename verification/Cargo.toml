[package]
name = "audio_interrogator"
version = "0.1.0"
edition = "2021"
publish = false

[dependencies]
alsa = "0.9"
anyhow = "1"
clap = "4"
cpal = "0.15"
serde = { version = "1", features = ["derive"] }
serde_json = "1"
