[package]
name = "wizer"
version = "0.1.0"
edition = "2021"
publish = false

[dependencies]
wasmparser = "=0.258.3"

[dev-dependencies]
wat = "=1.258.3"
