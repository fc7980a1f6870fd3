[package]
name = "helix_wasm"
version = "0.1.0"
edition = "2021"
publish = false

[dependencies]
parking_lot = "0.12"
ignore = "0.4"
log = "0.4"
thiserror = "2"
libloading = "0.8"
tokio = { version = "1", features = ["sync", "time", "rt"] }
tokio-stream = "0.1"
futures-core = "0.3"
anyhow = "1"
termini = "1"
open = "5"
wasm-bindgen = "0.2"
js-sys = "0.3"
wasm-bindgen-futures = "0.4"
web-time = "1"
tree-sitter-language = "0.1"
