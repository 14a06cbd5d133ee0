[package]
name = "kv"
version = "0.1.0"
edition = "2021"
publish = false

[dependencies]
sled = "*"
prost = "*"
tokio = { version = "*", features = ["io-util"] }
