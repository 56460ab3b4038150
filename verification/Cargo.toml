[package]
name = "vigilo_core"
version = "0.1.0"
edition = "2021"
publish = false

[dependencies]
arc-swap = "=1.9.3"
clap = { version = "=4.6.7", features = ["derive"] }
crossbeam-channel = "=0.5.17"
fast_image_resize = "=5.5.0"
image = { version = "=0.25.10", default-features = false, features = ["png", "jpeg", "bmp", "webp"] }
ort = { version = "=2.0.0-rc.12", default-features = false, features = ["std", "load-dynamic", "api-24"] }
serde = { version = "=1.0.229", features = ["derive"] }
serde_json = "=1.0.154"
toml = "=0.8.23"
tracing = "=0.1.44"
tracing-subscriber = { version = "=0.3.23", features = ["env-filter"] }
