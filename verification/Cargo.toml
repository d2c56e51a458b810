[package]
name = "claude_usage_meter"
version = "0.1.0"
edition = "2021"
publish = false

[dependencies]
chrono = "0.4"
dirs = "5"
keyring = { version = "3", features = ["windows-native", "apple-native"] }
reqwest = { version = "0.12", default-features = false, features = ["json", "rustls-tls"] }
serde = { version = "1", features = ["derive"] }
serde_json = "1"
thiserror = "1"
tiny-skia = "0.11"
tokio = { version = "1", features = ["macros", "rt", "time"] }
