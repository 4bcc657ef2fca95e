[package]
name = "activity_trends"
version = "0.1.0"
edition = "2021"
publish = false

[dependencies]
csv = "*"
chrono = "*"
clap = { version = "*", features = ["derive"] }
anyhow = "*"
