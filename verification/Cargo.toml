[package]
name = "tasky"
version = "0.1.0"
edition = "2021"
publish = false

[dependencies]
anyhow = "1"
chrono = { version = "0.4", features = ["serde"] }
clap = { version = "4", features = ["derive"] }
colored = "*"
dirs = "*"
serde = { version = "1", features = ["derive"] }
serde_json = "1"
