[package]
name = "tupi"
version = "0.1.0"
edition = "2021"
publish = false

[dependencies]
url = "2"
serde_yaml = "0.9"
serde = { version = "1", features = ["derive"] }
serde_json = "1"
rusqlite = { version = "*", features = ["bundled"] }
chrono = "0.4"
thiserror = "*"
