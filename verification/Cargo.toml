[package]
name = "tempmon"
version = "0.1.0"
edition = "2021"
publish = false

[dependencies]
prometheus = { version = "0.13", default-features = false }
serde = { version = "1", features = ["derive"] }
time = "0.3"
tiny_http = "0.12"
toml = "0.8"
