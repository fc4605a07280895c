[package]
name = "domino_counter"
version = "0.1.0"
edition = "2021"
publish = false

[dependencies]
image = "=0.23.14"
imageproc = "=0.22.0"
serde = { version = "=1.0.229", features = ["derive"] }
serde_json = "=1.0.154"
wasm-bindgen = { version = "=0.2.130", features = ["serde-serialize"] }
web-sys = { version = "=0.3.107", features = ["console"] }
tract-onnx = "0.15"
