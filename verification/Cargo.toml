[package]
name = "ironshield"
version = "0.1.0"
edition = "2021"
publish = false

[dependencies]
hex = "0.4"
sha2 = "0.10"
base64 = "0.22"
chrono = "0.4"
rand = "0.8"
rayon = "1"
ed25519-dalek = "2"
serde = { version = "1", features = ["derive"] }
serde_json = "1"
http = "1"
axum = { version = "0.7", default-features = false }
worker = "*"
wasm-bindgen = "0.2"
serde-wasm-bindgen = "*"
console_error_panic_hook = "0.1"
web-sys = { version = "0.3", features = ["console"] }
