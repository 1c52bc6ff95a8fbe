[package]
name = "ifconnect"
version = "0.1.0"
edition = "2021"
publish = false

[dependencies]
queues = "1"
serde = { version = "1", features = ["derive"] }
serde_json = "1"
tokio = { version = "1", default-features = false, features = ["net", "sync", "io-util", "rt", "time"] }
