[package]
name = "solar_front"
version = "0.1.0"
edition = "2021"
publish = false

[dependencies]
serde = { version = "1.0.229", features = ["derive"] }
serde_yaml = "0.9.34"
walkdir = "2.5.0"
