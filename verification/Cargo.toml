[package]
name = "json_strip_comments"
version = "0.1.0"
edition = "2021"
publish = false

[dependencies]
serde = { version = "=1.0.229", features = ["derive"] }
tsify = "=0.4.5"
wasm-bindgen = "=0.2.129"

[dev-dependencies]
serde_json = "=1.0.151"
