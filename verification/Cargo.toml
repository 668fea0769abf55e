[package]
name = "planet"
version = "0.1.0"
edition = "2021"
publish = false

[dependencies]
mtpng = "*"
chrono = "*"
clap = { version = "*", features = ["derive"] }
