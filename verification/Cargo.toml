[package]
name = "process_dispatcher"
version = "0.1.0"
edition = "2021"
publish = false

[dependencies]
chrono = "*"
chrono-tz = "*"
uuid = { version = "*", features = ["v4"] }
tokio = { version = "*", features = ["full"] }
tokio-util = "*"
sqlx = { version = "*", default-features = false, features = ["runtime-tokio", "mysql"] }
axum = "*"
dashmap = "*"
futures = "*"
log = "*"
serde = { version = "*", features = ["derive"] }
serde_json = "*"
