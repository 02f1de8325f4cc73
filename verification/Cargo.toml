[package]
name = "tva_core"
version = "0.1.0"
edition = "2021"
publish = false

[dependencies]
clap = { version = "4", features = ["derive"] }
csv = "1"
dssim-core = "*"
ffmpeg-next = "*"
image = { version = "0.25", default-features = false, features = ["png", "jpeg", "bmp", "tiff", "webp"] }
image-compare = "*"
rgb = "0.8"
rustfft = "6"
savgol-rs = "*"
serde = { version = "1", features = ["derive"] }
serde_json = "1"
thiserror = "*"
video-rs = "*"
wasm-bindgen = "0.2"
