[package]
name = "nexus"
version = "0.1.0"
edition = "2021"
publish = false

[dependencies]
clap = { version = "4", features = ["derive"] }
colored = "2"
rustyline = "14"
wasm-bindgen = "0.2"
console_error_panic_hook = "0.1"
