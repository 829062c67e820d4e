[package]
name = "stl_viewer"
version = "0.1.0"
edition = "2021"
publish = false

[dependencies]
console_error_panic_hook = "*"
js-sys = "*"
mat4 = "*"
wasm-bindgen = "*"
web-sys = { version = "*", features = ["Blob", "Document", "Element", "Event", "EventTarget", "File", "FileList", "FileReader", "HtmlCanvasElement", "HtmlDivElement", "HtmlElement", "HtmlInputElement", "MouseEvent", "Node", "WebGlBuffer", "WebGlProgram", "WebGlRenderingContext", "WebGlShader", "WebGlUniformLocation", "WheelEvent", "Window", "console"] }
