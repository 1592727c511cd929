[package]
name = "table_view"
version = "0.1.0"
edition = "2021"
publish = false

[dependencies]
csv = "=1.4.0"
seed = "=0.4.2"
futures = "=0.1.31"
wasm-bindgen = "=0.2.92"
