[package]
name = "open_with_browser"
version = "0.1.0"
edition = "2021"
publish = false

[dependencies]
serde = { version = "*", features = ["derive"] }
serde_json = "*"
url = "*"
percent-encoding = "*"
uuid = { version = "*", features = ["v4"] }
chrono = "*"
crowser = "*"
dirs = "*"
