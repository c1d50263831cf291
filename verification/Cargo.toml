[package]
name = "locadrive"
version = "0.1.0"
edition = "2021"
publish = false

[dependencies]
async-compression = { version = "0.4", features = ["futures-io", "gzip", "tokio", "zstd"] }
axum = { version = "0.6", features = ["headers", "ws"] }
base64 = "0.21"
console_error_panic_hook = "0.1"
deunicode = "1"
futures-util = { version = "0.3", features = ["io"] }
iced = { version = "0.10", default-features = false, features = ["tokio"] }
js-sys = "0.3"
memchr = "2"
pin-project = "1"
postcard = { version = "1", default-features = false, features = ["alloc"] }
serde = { version = "1", features = ["derive"] }
slab = "0.4"
sledgehammer_bindgen = "0.2"
tokio = { version = "1", features = ["fs", "io-util", "macros", "rt", "sync"] }
tokio-tar = "0.3"
tokio-util = { version = "0.7", features = ["io"] }
tower = { version = "0.4", features = ["util"] }
tower-http = { version = "0.4", features = ["compression-gzip", "compression-zstd", "fs"] }
ureq = { version = "2.9", default-features = false }
wasm-bindgen = "0.2"
wasm-bindgen-futures = "0.4"
web-sys = { version = "0.3", features = ["BinaryType", "Blob", "CloseEvent", "Document", "Element", "Event", "EventTarget", "File", "FileList", "Headers", "HtmlElement", "HtmlInputElement", "HtmlSelectElement", "Location", "MessageEvent", "Node", "ReadableStream", "Request", "RequestInit", "Response", "WebSocket", "Window", "console"] }
