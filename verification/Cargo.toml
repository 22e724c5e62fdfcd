[package]
name = "markpad"
version = "0.1.0"
edition = "2021"
publish = false

[dependencies]
base64 = "0.22"
pulldown-cmark = "0.13"
serde = { version = "1", features = ["derive"] }
serde_json = "1"
headless_chrome = "1"
