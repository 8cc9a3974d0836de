[package]
name = "sled_contents"
version = "0.1.0"
edition = "2021"
publish = false

[dependencies]
base64 = "=0.22.1"
prost = "=0.13.5"
serde = "=1.0.229"
serde_json = "=1.0.154"
sha2 = "=0.10.9"
sled = "=0.34.7"
tracing = "0.1"
uuid = "=1.29.0"
