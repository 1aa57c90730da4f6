[package]
name = "dev-flaky"
version = "0.9.0"
edition = "2021"
publish = false

[dependencies]
dev-report = "=0.9.8"
serde = { version = "=1.0.229", features = ["derive"] }
