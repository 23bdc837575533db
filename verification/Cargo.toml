[package]
name = "source_map_parser"
version = "0.1.0"
edition = "2021"
publish = false

[dependencies]
sourcemap = "*"
serde = { version = "1", features = ["derive"] }
serde_json = "1"
thiserror = "*"
wasm-bindgen = "0.2"
js-sys = "0.3"

[dev-dependencies]
regex = "1"
