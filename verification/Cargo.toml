[package]
name = "plugin_kernel"
version = "0.1.0"
edition = "2021"
publish = false

[dependencies]
serde = { version = "1", features = ["derive"] }
serde_json = "1"
libloading = "0.8"
lofty = "*"
base64 = "0.22"
walkdir = "2"
