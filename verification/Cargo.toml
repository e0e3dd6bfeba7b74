[package]
name = "metasheet"
version = "0.1.0"
edition = "2021"
publish = false

[dependencies]
serde = { version = "=1.0.229", features = ["derive"] }
serde_json = "=1.0.154"
yew = { version = "=0.14.3", features = ["std_web"] }
stdweb = "=0.4.20"
electron-sys = "=0.4.0"
wasm-bindgen = "=0.2.129"
