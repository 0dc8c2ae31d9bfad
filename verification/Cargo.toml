[package]
name = "smd_viewer"
version = "0.1.0"
edition = "2021"
publish = false

[dependencies]
nom = "7"
nalgebra = "*"
wasm-bindgen = "0.2"
js-sys = "0.3"
wasm-bindgen-futures = "0.4"
futures = "0.3"
serde = { version = "1", features = ["derive"] }
serde-wasm-bindgen = "*"
elm_rs = "*"
lazy_static = "1"

[dependencies.web-sys]
version = "0.3"
features = ["Element", "HtmlCanvasElement", "HtmlImageElement", "WebGlRenderingContext", "WebGlProgram", "WebGlShader", "WebGlBuffer", "WebGlTexture", "WebGlUniformLocation", "Window", "Request", "RequestInit", "RequestMode", "Response", "Headers", "Event", "EventTarget"]
