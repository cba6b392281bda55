[package]
name = "cronexpr"
version = "0.1.0"
edition = "2021"
publish = false

[dependencies]
chrono = "0.4"
croner = "2"
js-sys = "0.3"
wasm-bindgen = "0.2"
