[package]
name = "server_browser"
version = "0.1.0"
edition = "2021"
publish = false

[dependencies]
gloo-net = { version = "0.4", default-features = false, features = ["http", "json"] }
gloo-timers = "0.3"
serde = { version = "1", features = ["derive"] }
wasm-bindgen = "0.2"
wasm-bindgen-futures = "0.4"
web-sys = { version = "0.3", features = ["HtmlInputElement", "Event", "InputEvent", "EventTarget"] }
yew = { version = "0.20", features = ["csr"] }
