[package]
name = "choruz-api-gateway"
version = "0.1.0"
edition = "2021"
publish = false

[dependencies]
aes-gcm = "=0.10.3"
base64 = "=0.22.1"
chrono = "=0.4.45"
glob = "=0.3.4"
hex = "=0.4.3"
hkdf = "=0.12.4"
hmac = "=0.12.1"
infer = "=0.22.0"
rand = "=0.8.8"
reqwest = { version = "=0.12.28", default-features = false }
serde = { version = "=1.0.229", features = ["derive"] }
serde_json = "=1.0.154"
sha2 = "=0.10.9"
uuid = "1"
