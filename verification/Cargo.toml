[package]
name = "monitor"
version = "0.1.0"
edition = "2021"
publish = false

[dependencies]
axum = { version = "*", features = ["ws"] }
chrono = "*"
clap = { version = "*", features = ["derive"] }
futures = "*"
indicatif = "*"
machine-uid = "*"
procfs = "*"
serde = { version = "*", features = ["derive"] }
serde_json = "*"
sysinfo = "*"
tokio = { version = "*", features = ["full"] }
tower-http = { version = "*", features = ["cors"] }
users = "*"
uuid = { version = "*", features = ["v4"] }
