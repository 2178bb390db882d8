[package]
name = "web_archive"
version = "0.1.0"
edition = "2021"
publish = false

[dependencies]
url = "2"
kuchiki = "0.8"
html5ever = "0.25"
reqwest = { version = "0.11", default-features = false, features = ["blocking"] }
