[package]
name = "jsondiff"
version = "0.1.0"
edition = "2021"
publish = false

[dependencies]
approx = "0.5"
chrono = "0.4"
serde = { version = "1", features = ["derive"] }
serde_json = "1"
