[package]
name = "visual_media_viewer"
version = "0.1.0"
edition = "2021"
publish = false

[dependencies]
eframe = { version = "0.31", default-features = false, features = ["default_fonts", "wgpu", "x11"] }
env_logger = { version = "0.11", default-features = false, features = ["humantime"] }
ffmpeg-next = "7"
image = { version = "0.25", default-features = false, features = ["bmp", "gif", "jpeg", "png", "tiff", "webp"] }
log = "0.4"
natord = "1"
serde = { version = "1", features = ["derive"] }
serde_json = "1"
turbojpeg = { version = "1", default-features = false, features = ["cmake"] }
wgpu = { version = "24", default-features = false, features = ["wgsl"] }
