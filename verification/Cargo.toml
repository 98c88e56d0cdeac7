[package]
name = "crypto_key"
version = "0.1.0"
edition = "2021"
publish = false

[dependencies]
aes-gcm = "0.10"
base64 = "0.22"
rsa = "0.8"
sha2 = "0.10"
rand = "0.8"
hex = "0.4"
chrono = "0.4"
serde = { version = "1", features = ["derive"] }
serde_json = "1"
log = "0.4"
simplelog = "0.12"
time = { version = "0.3", features = ["macros"] }
