[package]
name = "kml_polygonizer"
version = "0.1.0"
edition = "2021"
publish = false

[dependencies]
kml = "*"
serde = { version = "1", features = ["derive"] }
serde_bytes = "*"
serde-wasm-bindgen = "*"
wasm-bindgen = "*"
