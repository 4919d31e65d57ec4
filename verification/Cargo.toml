[package]
name = "softblit"
version = "0.1.0"
edition = "2021"
publish = false

[dependencies]
wgpu = "=30.0.1"
web-sys = { version = "=0.3.107", features = ["console", "DedicatedWorkerGlobalScope", "Document", "Element", "EventTarget", "HtmlCanvasElement", "HtmlElement", "HtmlSelectElement", "ImageBitmap", "Location", "Node", "OffscreenCanvas", "Performance", "VideoFrame", "Window", "WorkerGlobalScope"] }
wasm-bindgen = "=0.2.130"
js-sys = "=0.3.107"
console_error_panic_hook = "=0.1.7"
