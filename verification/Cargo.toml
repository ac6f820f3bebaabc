[package]
name = "holomorphic"
version = "0.1.0"
edition = "2021"
publish = false

[dependencies]
num-complex = "*"
image = "*"
clap = { version = "*", features = ["derive"] }
chrono = "*"
