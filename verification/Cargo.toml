[package]
name = "gldf_search"
version = "0.1.0"
edition = "2021"
publish = false

[dependencies]
anyhow = "=1.0.104"
axum = "=0.8.9"
base64 = "=0.22.1"
bincode = "=1.3.3"
blake3 = "=1.8.7"
clap = { version = "=4.6.7", features = ["derive"] }
compact_str = { version = "=0.10.0", features = ["serde"] }
console_error_panic_hook = "0.1"
dotenvy = "=0.15.7"
eulumdat = "=0.7.1"
gldf-rs = { version = "=0.4.0", default-features = false, features = ["eulumdat"] }
gloo-timers = { version = "0.3", features = ["futures"] }
leptos = { version = "=0.8.23", features = ["ssr"] }
leptos_meta = { version = "=0.8.7", features = ["ssr"] }
leptos_router = { version = "=0.8.17", features = ["ssr"] }
rand = "=0.8.8"
rayon = "=1.12.0"
regex = "=1.13.1"
serde = { version = "=1.0.229", features = ["derive"] }
serde_json = "=1.0.154"
smallvec = { version = "=1.16.4", features = ["serde"] }
tokio = { version = "=1.54.1", features = ["rt"] }
urlencoding = "=2.1.3"
wasm-bindgen = "=0.2.130"
web-sys = { version = "=0.3.107", features = ["History", "Location", "Window"] }
