[package]
name = "sidecar_bridge"
version = "0.1.0"
edition = "2021"
publish = false

[dependencies]
http = "=1.5.0"
log = "=0.4.34"
tauri = { version = "=2.12.5", default-features = false, features = ["wry"] }
tauri-plugin-log = "2"
