[package]
name = "tinyccrl_engine"
version = "0.1.0"
edition = "2021"
publish = false

[dependencies]
chess = "3.2"
wasm-bindgen = "0.2"
console_error_panic_hook = "0.1"
