[package]
name = "regbridge"
version = "0.1.0"
edition = "2021"
publish = false

[dependencies]
chrono = "0.4"
uuid = { version = "1", features = ["v4"] }
hyper = "0.12"
futures = "0.1"
tokio = "0.1"
tokio-executor = "0.1"
serde = "1"
serde_derive = "1"
serde_json = "1"
log = "0.4"
