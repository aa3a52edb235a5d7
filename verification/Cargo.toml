[package]
name = "iggy"
version = "0.1.0"
edition = "2021"
publish = false

[dependencies]
anyhow = "1"
async-trait = "0.1"
bytes = "1"
comfy-table = "7"
serde = { version = "1", features = ["derive"] }
serde_with = { version = "3", features = ["base64"] }
tracing = "0.1"
