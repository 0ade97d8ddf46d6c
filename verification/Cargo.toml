[package]
name = "cosmic_bg"
version = "0.1.0"
edition = "2021"
publish = false

[dependencies]
rand = "=0.9.5"
image = { version = "=0.25.10", default-features = false, features = ["jpeg", "png"] }
fast_image_resize = { version = "=5.5.0", features = ["image"] }
notify = "=8.2.1"
walkdir = "=2.5.0"
tracing = "=0.1.44"
smithay-client-toolkit = { version = "=0.19.2", default-features = false, features = ["calloop"] }
