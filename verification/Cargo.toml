[package]
name = "phpantom"
version = "0.1.0"
edition = "2021"
publish = false

[dependencies]
tower-lsp = "0.20"
serde_json = "1"
