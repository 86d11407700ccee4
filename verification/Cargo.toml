[package]
name = "hammertalk"
version = "0.1.0"
edition = "2021"
publish = false

[dependencies]
cpal = "=0.15.3"
dirs = "=5.0.1"
env_logger = "=0.11.11"
log = "=0.4.34"
signal-hook = "=0.3.18"
transcribe-rs = { version = "=0.2.9", features = ["moonshine"] }
