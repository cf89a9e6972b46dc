[package]
name = "config_builder"
version = "0.1.0"
edition = "2021"
publish = false

[dependencies]
indexmap = { version = "1", features = ["serde"] }
serde = { version = "1", features = ["derive"] }
serde_json = "1"
