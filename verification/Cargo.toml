[package]
name = "infernal-worker-simple"
version = "0.1.0"
edition = "2021"
publish = false

[dependencies]
base64 = "=0.22.1"
serde = "=1.0.229"
serde_json = "=1.0.154"
uuid = { version = "=1.29.0", features = ["v4"] }
