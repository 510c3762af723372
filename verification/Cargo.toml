[package]
name = "chunk_search"
version = "0.1.0"
edition = "2021"
publish = false

[dependencies]
uuid = { version = "1", features = ["v4"] }
chrono = "0.4"
dateparser = "0.2"
serde = { version = "1", features = ["derive"] }
serde_json = "1"
