[package]
name = "reminder_engine"
version = "0.1.0"
edition = "2021"
publish = false

[dependencies]
serde_json = "*"
chrono = "*"
uuid = { version = "*", features = ["v4"] }
serde = { version = "*", features = ["derive"] }
rusqlite = { version = "*", features = ["bundled"] }
notify-rust = "*"
reqwest = { version = "*", default-features = false, features = ["json", "rustls-tls"] }
tokio = { version = "*", features = ["rt", "rt-multi-thread", "time", "macros"] }
