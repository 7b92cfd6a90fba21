[package]
name = "smolexchange"
version = "0.1.0"
edition = "2021"
publish = false

[dependencies]
chrono = "0.4"
prettytable-rs = "0.10"
rand = "0.8"
redis = { version = "0.23", features = ["tokio-comp"] }
serde = { version = "1", features = ["derive"] }
serde_json = "1"
uuid = { version = "1", features = ["v4", "serde"] }
