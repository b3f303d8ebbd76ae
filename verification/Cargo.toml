[package]
name = "project_application"
version = "0.1.0"
edition = "2021"
publish = false

[dependencies]
uuid = { version = "1", features = ["v4", "v7"] }
chrono = "0.4"
chrono-tz = "*"
getrandom = "0.3"
sha2 = "0.10"
serde = { version = "1", features = ["derive"] }
serde_json = "1"
thiserror = "2"
tokio = { version = "1", features = ["sync", "rt"] }
rustix = { version = "*", features = ["fs", "process"] }
rusqlite = { version = "*", features = ["bundled"] }
