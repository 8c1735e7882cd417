[package]
name = "dawnstore"
version = "0.1.0"
edition = "2021"
publish = false

[dependencies]
serde_json = "*"
jsonschema = { version = "*", default-features = false }
uuid = { version = "*", features = ["v4"] }
chrono = "*"
