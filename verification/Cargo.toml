[package]
name = "photomosaic"
version = "0.1.0"
edition = "2021"
publish = false

[dependencies]
average_color = "0.1.2"
base64 = "0.22"
image = { version = "0.25", default-features = false, features = ["png", "jpeg"] }
rfd = { version = "0.15", default-features = false }
serde = { version = "1", features = ["derive"] }
ts-rs = "*"
