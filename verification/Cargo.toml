[package]
name = "rusty_web"
version = "0.1.0"
edition = "2021"
publish = false

[dependencies]
tempfile = "*"

[dev-dependencies]
urlencoding = "*"
