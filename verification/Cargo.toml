[package]
name = "kiro_vault"
version = "0.1.0"
edition = "2021"
publish = false

[dependencies]
base64 = "*"
chacha20poly1305 = "*"
chrono = "*"
dirs = "*"
futures = "*"
hex = "*"
hmac = "*"
pbkdf2 = "*"
rand = "*"
serde = { version = "*", features = ["derive"] }
serde_json = "*"
sha2 = "*"
url = "*"
urlencoding = "*"
uuid = { version = "*", features = ["v4"] }
