[package]
name = "bcachefs_auto_snapshot"
version = "0.1.0"
edition = "2021"
publish = false

[dependencies]
chrono = "*"
clap = { version = "*", features = ["derive"] }
ron = "*"
serde = { version = "*", features = ["derive"] }
