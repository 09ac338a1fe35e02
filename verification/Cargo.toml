[package]
name = "face_cropper"
version = "0.1.0"
edition = "2021"
publish = false

[dependencies]
image = "0.24"
rand = "0.8"
clap = { version = "4", features = ["derive"] }
env_logger = "0.10"
log = "0.4"
ndarray = "0.15"
ort = { version = "=2.0.0-rc.13", default-features = false, features = ["std"] }
rayon = "1"
walkdir = "2"
