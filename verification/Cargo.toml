[package]
name = "brod"
version = "0.1.0"
edition = "2021"
publish = false

[dependencies]
colored = "2"
chrono = "*"
clap = { version = "*", features = ["derive"] }
reedline = "*"
enum-display = "*"
once_cell = "*"
