[package]
name = "gt_core"
version = "0.1.0"
edition = "2021"
publish = false

[dependencies]
email_address = "*"
chrono = "*"
serde = { version = "*", features = ["derive"] }
serde_json = "*"
