[package]
name = "binlens"
version = "0.1.0"
edition = "2021"
publish = false

[dependencies]
phf = { version = "0.11", features = ["macros"] }
serde = { version = "1", features = ["derive"] }
serde_json = "1"
serde_yaml = "0.9"
