[package]
name = "upload_engine"
version = "0.1.0"
edition = "2021"
publish = false

[dependencies]
async-trait = "0.1"
bytes = "1"
http = "0.2"
serde = { version = "1", features = ["derive"] }
serde_json = "1"
