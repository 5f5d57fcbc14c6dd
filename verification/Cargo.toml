[package]
name = "telegram_bot_gateway"
version = "0.1.0"
edition = "2021"
publish = false

[dependencies]
axum = "0.8"
chrono = "0.4"
clap = { version = "4", features = ["derive"] }
hyper = { version = "1", features = ["server", "http1"] }
hyper-util = { version = "0.1", features = ["tokio"] }
reqwest = { version = "0.12", default-features = false, features = ["json", "rustls-tls"] }
rusqlite = "*"
serde = { version = "1", features = ["derive"] }
serde_json = "1"
serde_yaml_ng = "*"
tokio = { version = "1", features = ["full"] }
tokio-util = "0.7"
tower = { version = "0.5", features = ["util"] }
uuid = { version = "1", features = ["v4"] }
