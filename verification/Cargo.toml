[package]
name = "core_video_editor"
version = "0.1.0"
edition = "2021"
publish = false

[dependencies]
anyhow = "*"
bytemuck = "*"
ffmpeg-next = "*"
image = { version = "*", default-features = false }
imageproc = "*"
lru = "*"
opencv = "*"
parking_lot = "*"
rayon = "*"
serde_json = "*"
ulid = "*"
