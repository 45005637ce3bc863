[package]
name = "game_of_life"
version = "0.1.0"
edition = "2021"
publish = false

[dependencies]
console_error_panic_hook = "=0.1.7"
js-sys = "=0.3.106"
wasm-bindgen = "=0.2.129"
web-sys = { version = "=0.3.106", features = ["console", "WebGlRenderingContext", "WebGlUniformLocation"] }
