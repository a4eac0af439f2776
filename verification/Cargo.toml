[package]
name = "pptx_editor_engine"
version = "0.1.0"
edition = "2021"
publish = false

[dependencies]
cosmic-text = "*"
fontdb = "*"
wasm-bindgen = "*"
js-sys = "*"
web-sys = { version = "*", features = ["CanvasRenderingContext2d", "HtmlCanvasElement", "HtmlImageElement", "ImageData", "Window", "Document", "Element", "DomMatrix", "CanvasGradient", "console"] }
console_error_panic_hook = "*"
serde = { version = "*", features = ["derive"] }
serde_json = "*"
axum = "*"
tokio = { version = "*", features = ["macros", "rt-multi-thread", "net", "fs"] }
tower-http = { version = "*", features = ["cors"] }
