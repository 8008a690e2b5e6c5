[package]
name = "icon_cache"
version = "0.1.0"
edition = "2021"
publish = false

[dependencies]
base64 = "0.22"
image = { version = "0.25", default-features = false, features = ["png"] }
winapi = { version = "0.3", features = ["shellapi", "winuser", "wingdi"] }
