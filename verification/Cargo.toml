[package]
name = "spx"
version = "0.1.0"
edition = "2021"
publish = false

[dependencies]
async-trait = "0.1"
chrono = "0.4"
dashmap = "6"
rand = "0.8"
tokio = { version = "1", features = ["full"] }
tokio-util = "0.7"
tonic = "*"
uuid = { version = "1", features = ["v4"] }
