[package]
name = "maze"
version = "0.1.0"
edition = "2021"
publish = false

[dependencies]
rand = "0.8"
serde = { version = "1", features = ["derive"] }
serde_json = "1"
derive_more = "0.99"
wasm-bindgen = "0.2"
wee_alloc = "0.4"
