[package]
name = "ferry_connections"
version = "0.1.0"
edition = "2021"
publish = false

[dependencies]
chrono = { version = "0.4", default-features = false, features = ["std"] }
urlencoding = "2"
serde = { version = "1", features = ["derive"] }
serde_json = "1"
gloo-net = "*"
gloo-utils = "*"
wasm-bindgen = "0.2"
wasm-bindgen-futures = "0.4"
