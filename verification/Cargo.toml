[package]
name = "openworld"
version = "0.1.0"
edition = "2021"
publish = false

[dependencies]
aes-gcm = "=0.10.3"
anyhow = "=1.0.104"
async-trait = "=0.1.92"
base64 = "=0.22.1"
blake2 = "=0.10.6"
bytes = "=1.12.1"
chacha20poly1305 = "=0.10.1"
hkdf = "=0.12.4"
hmac = "=0.12.1"
ipnet = "2"
md-5 = "=0.10.6"
rand = "=0.8.8"
rand_chacha = "=0.3.1"
sha1 = "=0.10.7"
sha2 = "=0.10.9"
sha3 = "=0.10.9"
tokio = { version = "=1.54.1", features = ["full"] }
tracing = "=0.1.44"
uuid = "=1.29.0"
x25519-dalek = { version = "=2.0.1", features = ["static_secrets"] }
