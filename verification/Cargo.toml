[package]
name = "vn-lunar-core"
version = "0.1.0"
edition = "2021"
publish = false

[dependencies]
js-sys = "*"
pyo3 = "*"
wasm-bindgen = "*"
