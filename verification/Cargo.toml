[package]
name = "hexdump"
version = "0.1.0"
edition = "2021"
publish = false

[dependencies]
serde = { version = "*", features = ["derive"] }
wasm-bindgen = { version = "*", features = ["serde-serialize"] }
