[package]
name = "sycamore_website"
version = "0.1.0"
edition = "2021"
publish = false

[dependencies]
mdsycx = "*"
serde = { version = "1", features = ["derive"] }
serde_json = "1"
sycamore = { version = "0.9", features = ["hydrate", "suspense"] }
sycamore-router = "0.9"
reqwest = { version = "0.12", default-features = false, features = ["blocking", "json", "rustls-tls"] }
tokio = { version = "1", features = ["macros", "rt-multi-thread"] }
console_error_panic_hook = "0.1"
gloo-net = { version = "0.6", default-features = false, features = ["http"] }
web-sys = { version = "0.3", features = ["Element", "NodeList", "Node"] }
