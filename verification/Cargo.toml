[package]
name = "convnet"
version = "0.1.0"
edition = "2021"
publish = false

[dependencies]
ndarray = "*"
ndarray-rand = "*"
serde = { version = "1", features = ["derive"] }
serde_json = "1"
