[package]
name = "shooter"
version = "0.1.0"
edition = "2021"
publish = false

[dependencies]
self-compare = "*"
ggez = "0.5.1"
bincode = "0.9"
serde = { version = "1", features = ["derive"] }
serde_derive = "1"
