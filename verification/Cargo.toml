[package]
name = "instrumentor"
version = "0.1.0"
edition = "2021"
publish = false

[dependencies]
walrus = "=0.27.3"
id-arena = "=2.3.0"
anyhow = "=1.0.104"
log = "=0.4.34"
wasm-bindgen = "=0.2.129"

[dev-dependencies]
wat = "=1.262.0"
wasmi = "=0.40.0"
