[package]
name = "pharm"
version = "0.1.0"
edition = "2021"
publish = false

[dependencies]
chrono = "*"
clap = { version = "*", features = ["derive"] }
dirs = "*"
notify-rust = "*"
serde = { version = "*", features = ["derive"] }
serde_json = "*"
