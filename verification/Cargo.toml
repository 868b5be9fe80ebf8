[package]
name = "page_widgets"
version = "0.1.0"
edition = "2021"
publish = false

[dependencies]
leptos = { version = "=0.4.10", features = ["csr"] }
leptos_meta = { version = "=0.4.10", features = ["csr"] }
leptos_router = { version = "=0.4.10", features = ["csr"] }
tracing = "=0.1.44"
web-sys = { version = "=0.3.106", features = ["Storage", "Window"] }
