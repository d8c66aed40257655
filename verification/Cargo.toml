[package]
name = "varta"
version = "0.2.0"
edition = "2021"
publish = false

[dependencies]
aes-gcm = "0.10"
aes-siv = "0.7"
borsh = { version = "1", features = ["derive"] }
colored = "2"
ed25519-dalek = "2"
hex = "0.4"
hkdf = "0.12"
hmac = "0.12"
once_cell = "1"
pqcrypto-dilithium = "0.5"
pqcrypto-traits = "0.3"
rand = "0.8"
rpassword = "7"
security-framework = "2"
sha2 = "0.10"
zeroize = "1"
