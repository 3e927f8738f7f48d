[package]
name = "taron"
version = "0.3.0"
edition = "2021"
publish = false

[dependencies]
bincode = "1.3"
hex = "0.4"
reqwest = { version = "0.12", default-features = false, features = ["json"] }
rocksdb = { version = "0.22", default-features = false }
serde = { version = "1", features = ["derive"] }
serde_json = "1"
socket2 = "0.5"
tokio = { version = "1", features = ["full"] }
tracing = "0.1"
