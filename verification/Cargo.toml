[package]
name = "mesh_subdivision"
version = "0.1.0"
edition = "2021"

[dependencies]
js-sys = "0.3"
wasm-bindgen = "0.2"
