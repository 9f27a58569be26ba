[package]
name = "kyss"
version = "0.1.0"
edition = "2021"
publish = false

[dependencies]
chrono = { version = "0.4", default-features = false, features = ["alloc"] }
urlencoding = "2"
serde = { version = "1", features = ["derive"] }
serde_json = "1"
axum = "0.8"
tokio = { version = "1", features = ["rt-multi-thread", "macros", "net"] }
tower-http = { version = "0.6", features = ["cors", "fs"] }
tracing = "0.1"
tracing-subscriber = "0.3"
reqwest = { version = "0.12", default-features = false, features = ["json", "rustls-tls"] }
leptos = { version = "0.8", features = ["csr"] }
leptos_router = "0.8"
web-sys = { version = "0.3", features = ["Window", "Storage", "Request", "RequestInit", "Response", "Headers", "HtmlInputElement", "Event", "EventTarget", "console"] }
js-sys = "0.3"
wasm-bindgen = "0.2"
wasm-bindgen-futures = "0.4"
serde-wasm-bindgen = "0.6"
gloo-timers = "0.3"
