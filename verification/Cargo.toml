[package]
name = "audio_streamer"
version = "0.1.0"
edition = "2021"
publish = false

[dependencies]
tokio = { version = "*", features = ["net", "sync", "time", "rt-multi-thread", "macros"] }
clap = { version = "*", features = ["derive"] }
env_logger = "*"
log = "*"
cpal = "*"
