[package]
name = "fastqr"
version = "0.1.0"
edition = "2021"
publish = false

[dependencies]
compact_str = "*"
smallvec = "1"
image = { version = "0.25", default-features = false, features = ["png", "jpeg", "webp"] }
napi = "*"
napi-derive = "*"
wasm-bindgen = "*"
js-sys = "*"
web-sys = { version = "*", features = ["CanvasRenderingContext2d", "HtmlCanvasElement", "HtmlVideoElement", "ImageData"] }
