[package]
name = "primitive_engineering"
version = "0.1.0"
edition = "2021"
publish = false

[dependencies]
bevy = { version = "0.9", default-features = false }
serde = { version = "1", features = ["derive"] }
bincode = "1"
zstd = "0.12"
noise = "0.8"
rand = "0.8"
lerp = "0.4"
