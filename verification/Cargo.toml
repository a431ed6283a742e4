[package]
name = "ldraw"
version = "0.1.0"
edition = "2021"
publish = false

[dependencies]
cgmath = "=0.18.0"
async-std = "=1.13.2"
futures = "=0.3.34"
serde = { version = "=1.0.229", features = ["derive"] }
uuid = { version = "=1.29.0", features = ["v4"] }
reqwest = { version = "0.12", default-features = false }
