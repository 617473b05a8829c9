[package]
name = "enclave_io"
version = "0.1.0"
edition = "2021"
publish = false

[dependencies]
aes-siv = "0.7"
base64 = "0.13"
hkdf = "0.12"
serde_json = "1"
sha2 = "0.10"
x25519-dalek = { version = "2", features = ["static_secrets"] }
