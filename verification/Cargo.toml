[package]
name = "wda_core"
version = "0.1.0"
edition = "2021"
publish = false

[dependencies]
html5gum = "*"
serde_json = "1"
