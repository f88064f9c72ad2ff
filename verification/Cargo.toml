[package]
name = "missive"
version = "0.1.0"
edition = "2021"
publish = false

[dependencies]
mailparse = "*"
chrono = "*"
uuid = { version = "*", features = ["v4"] }
