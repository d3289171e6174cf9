[package]
name = "hatena_oauth"
version = "0.1.0"
edition = "2021"
publish = false

[dependencies]
base64 = "0.13"
chrono = "0.4"
rand = "0.8"
ring = "0.16"
reqwest = { version = "0.11", default-features = false, features = ["blocking"] }
scraper = "0.13"
webbrowser = "0.8"
