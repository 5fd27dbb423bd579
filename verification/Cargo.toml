[package]
name = "log_analyzer"
version = "0.1.0"
edition = "2021"
publish = false

[dependencies]
chrono = "0.4"
clap = { version = "4", features = ["derive"] }
comfy-table = "7"
regex = "1"
