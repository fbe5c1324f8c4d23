[package]
name = "fcp_notify"
version = "0.1.0"
edition = "2021"
publish = false

[dependencies]
anyhow = "1"
cfg-if = "1"
chrono = { version = "0.4", features = ["serde"] }
console_error_panic_hook = "0.1"
serde = { version = "1", features = ["derive"] }
telegram-bot = "*"
worker = "*"
