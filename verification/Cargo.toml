[package]
name = "rush"
version = "0.1.0"
edition = "2021"
publish = false

[dependencies]
dirs = "*"
miette = "*"
reedline = "*"
serde = { version = "*", features = ["derive"] }
serde_json = "*"
