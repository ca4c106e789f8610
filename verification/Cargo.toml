[package]
name = "nd_lyrics"
version = "0.1.0"
edition = "2021"
publish = false

[dependencies]
regex = "1"
flate2 = "1"
serde = { version = "1", features = ["derive"] }
serde_json = "1"
serde_urlencoded = "0.7"
base64 = "0.22"
percent-encoding = "2"
thiserror = "2"
getrandom = "0.3"
extism-pdk = "1"
