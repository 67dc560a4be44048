[package]
name = "zwi"
version = "0.3.0"
edition = "2021"
publish = false

[dependencies]
clap = { version = "4", features = ["derive"] }
crossbeam-channel = "0.5"
ignore = "0.4"
indicatif = "0.17"
tempfile = "3"
zip = { version = "2", default-features = false, features = ["deflate"] }
