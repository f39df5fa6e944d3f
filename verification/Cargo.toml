[package]
name = "ggok"
version = "0.1.0"
edition = "2021"
publish = false

[dependencies]
hmac = "=0.12.1"
sha2 = "=0.10.9"
hex = "=0.4.3"
subtle = "=2.6.1"
uuid = { version = "=1.29.0", features = ["v4"] }
chrono = "=0.4.45"
percent-encoding = "=2.3.2"
serde = { version = "=1.0.229", features = ["derive"] }
serde_json = "=1.0.154"
toml = "=0.8.23"
anyhow = "1"
mime_guess = "2"
oxipng = { version = "9", default-features = false }
base64 = "0.22"
cookie = "0.18"
zip = { version = "2", default-features = false, features = ["deflate"] }
ignore = "0.4"
