[package]
name = "twitchd"
version = "0.1.0"
edition = "2021"
publish = false

[dependencies]
serde_json = "1"
futures = "0.3"
hyper = { version = "0.14", features = ["client", "server", "http1", "tcp", "stream"] }
hyper-tls = "0.5"
tokio = { version = "1", features = ["full"] }
