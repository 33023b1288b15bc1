[package]
name = "mafia_bot"
version = "0.1.0"
edition = "2021"
publish = false

[dependencies]
rand = "0.8"
chrono = "0.4"
uuid = { version = "1", features = ["v4"] }
serde = { version = "1", features = ["derive"] }
serde_json = "1"
statrs = "0.16"
thiserror = "1"
toml = "0.8"
serde_with = "3"
