[package]
name = "opendal_wasm"
version = "0.1.0"
edition = "2021"
publish = false

[dependencies]
futures = "0.3"
opendal = { version = "0.54", default-features = false, features = ["services-s3"] }
serde = { version = "1", features = ["derive"] }
serde-wasm-bindgen = "0.6"
wasm-bindgen = "0.2"
wasm-bindgen-futures = "0.4"
