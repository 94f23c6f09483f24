[package]
name = "qbit_lang"
version = "0.1.0"
edition = "2021"
publish = false

[dependencies]
inflections = "1.1"
serde = { version = "1", features = ["derive"] }
thiserror = "1"
wasm-bindgen = "0.2"
serde-wasm-bindgen = "0.6"
console_error_panic_hook = "0.1"
wee_alloc = "0.4"
