[package]
name = "ban_analyzer"
version = "0.1.0"
edition = "2021"
publish = false

[dependencies]
regex = "1"
chrono = "0.4"
serde = { version = "1", features = ["derive"] }
serde_json = "1"
serde_yaml = "*"
tokio = { version = "1", features = ["rt-multi-thread", "macros", "sync", "time"] }
tokio-retry = "*"
reqwest = { version = "*", default-features = false, features = ["json"] }
kafka = { version = "*", default-features = false }
duration-string = "*"

[dev-dependencies]
