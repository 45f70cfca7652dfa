[package]
name = "getinfo"
version = "0.1.0"
edition = "2021"
publish = false

[dependencies]
tokio = { version = "=1.54.1", features = ["full"] }

[dev-dependencies]
bytes = "=1.12.1"
regex = "1"
tokio-util = { version = "=0.7.20", features = ["codec"] }
