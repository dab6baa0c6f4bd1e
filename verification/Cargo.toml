[package]
name = "tavern_vault"
version = "0.1.0"
edition = "2021"
publish = false

[dependencies]
aes-gcm = "0.10"
argon2 = "0.5"
base64 = "0.22"
rand = "0.8"
chrono = "0.4"
keyring = { version = "3", default-features = false }
