[package]
name = "isbot"
version = "0.1.0"
edition = "2021"
publish = false

[dependencies]
regex = "1"
serde_json = "1"
ureq = { version = "2", default-features = false }
yaml-rust = "0.4"
