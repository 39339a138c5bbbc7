[package]
name = "probe_agent"
version = "0.1.0"
edition = "2021"
publish = false

[dependencies]
crc = "3"
flate2 = "=1.1.10"
rand = "=0.8.8"
serde = { version = "=1.0.229", features = ["derive"] }
serde_json = "=1.0.151"
uuid = { version = "=1.27.0", features = ["v4"] }
