[package]
name = "video_effects"
version = "0.1.0"
edition = "2021"
publish = false

[dependencies]
alloy-sol-types = "*"
base64 = "0.21"
ffmpeg-next = "*"
image = { version = "*", default-features = false }
