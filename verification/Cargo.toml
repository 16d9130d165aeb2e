[package]
name = "nvage"
version = "1.2.0"
edition = "2021"
publish = false

[dependencies]
age = "0.11"
anyhow = "1"
chrono = "0.4"
dirs = "5"
log = "0.4"
notify = "6"
rusqlite = { version = "0.31", features = ["bundled"] }
serde = { version = "1", features = ["derive"] }
serde_json = "1"
slug = "0.1"
uuid = { version = "1", features = ["v4"] }
