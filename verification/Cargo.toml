[package]
name = "url_wasm"
version = "0.1.0"
edition = "2021"
publish = false

[dependencies]
idna = "0.5"
percent-encoding = "2"
wasm-bindgen = "0.2"
js-sys = "0.3"
serde-wasm-bindgen = "0.6"
