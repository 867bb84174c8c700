[package]
name = "woven_shell"
version = "0.1.0"
edition = "2021"
publish = false

[dependencies]
anyhow = "=1.0.104"
chrono = "=0.4.45"
flate2 = "=1.1.10"
image = { version = "0.25", default-features = false, features = ["png", "jpeg", "bmp", "webp"] }
libc = "=0.2.191"
png = "=0.17.16"
serde = { version = "=1.0.229", features = ["derive"] }
serde_json = "=1.0.154"
toml = "=0.8.23"
xkeysym = "=0.2.1"
