[package]
name = "entropy"
version = "1.0.2"
edition = "2021"
publish = false

[dependencies]
clap = { version = "*", features = ["derive"] }
