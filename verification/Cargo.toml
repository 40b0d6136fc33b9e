[package]
name = "cyoa_loader"
version = "0.1.0"
edition = "2021"
publish = false

[dependencies]
zstd-safe = "=8.0.0"
wasm-bindgen = "=0.2.129"
js-sys = "=0.3.106"
web-sys = { version = "=0.3.106", features = ["Window", "Headers", "Request", "RequestInit", "RequestMode", "Response", "console"] }
wasm-bindgen-futures = "=0.4.79"
futures = "=0.3.34"
serde = { version = "=1.0.229", features = ["derive"] }
serde-wasm-bindgen = "=0.6.5"
console_error_panic_hook = "=0.1.7"
