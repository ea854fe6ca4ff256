[package]
name = "cognistruct"
version = "0.1.0"
edition = "2021"
publish = false

[dependencies]
anyhow = "1"
chrono = "0.4"
cozo = "*"
notify-debouncer-full = "*"
pulldown-cmark = "*"
regex = "1"
serde = { version = "1", features = ["derive"] }
serde_json = "1"
serde_yaml = "0.9"
uuid = { version = "1", features = ["v4"] }
walkdir = "2"
