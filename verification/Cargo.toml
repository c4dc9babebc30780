[package]
name = "poll_engine"
version = "0.1.0"
edition = "2021"
publish = false

[dependencies]
serde = { version = "1", features = ["derive"] }
chrono = { version = "0.4", features = ["serde"] }
axum = "*"
tokio = { version = "1", features = ["rt-multi-thread", "macros", "net"] }
