[package]
name = "wasm_physics"
version = "0.1.0"
edition = "2021"
publish = false

[dependencies]
nalgebra = "0.33"
rayon = "1"
wasm-bindgen = "0.2"
wasm-bindgen-rayon = "1"
