[package]
name = "hexmap"
version = "0.1.0"
edition = "2021"
publish = false

[dependencies]
bevy = { version = "=0.16.1", default-features = false }
lerp = "=0.5.0"
serde = { version = "=1.0.229", features = ["derive"] }
