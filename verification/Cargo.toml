[package]
name = "rustycraft"
version = "0.1.0"
edition = "2021"
publish = false

[dependencies]
cgmath = "0.18"
noise = { version = "0.7", default-features = false }
rand = "0.8"
serde = { version = "1", features = ["derive"] }
serde_json = "1"
uuid = { version = "1", features = ["v4"] }
