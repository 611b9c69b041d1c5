[package]
name = "rwui"
version = "0.1.0"
edition = "2021"
publish = false

[dependencies]
crossbeam-channel = "*"
mutils = "*"
serde = { version = "*", features = ["derive"] }
serde_derive = "*"
serde-wasm-bindgen = "*"
serde_yml = "*"
tungstenite = "*"
wasm-bindgen = "*"
web-sys = { version = "*", features = ["Window", "Document", "Element", "HtmlElement", "HtmlInputElement", "HtmlSelectElement", "MessageEvent", "WebSocket", "BinaryType", "console", "Node", "EventTarget", "Event"] }
web-view = "*"
