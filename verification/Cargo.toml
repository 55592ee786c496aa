[package]
name = "flushy"
version = "1.0.0"
edition = "2021"
publish = false

[dependencies]
clap = { version = "3.2.25", features = ["derive"] }
