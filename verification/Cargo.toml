[package]
name = "serde_json_canonicalizer"
version = "0.3.0"
edition = "2021"
publish = false

[dependencies]
ryu-js = "=1.0.3"
serde = "=1.0.229"
serde_json = { version = "=1.0.154", features = ["float_roundtrip"] }
