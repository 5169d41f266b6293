[package]
name = "quietwire"
version = "0.1.0"
edition = "2021"
publish = false

[dependencies]
argon2 = "=0.5.3"
blake3 = "=1.8.7"
chacha20poly1305 = "=0.10.1"
ed25519-dalek = "=2.2.0"
getrandom = "=0.3.4"
hkdf = "=0.12.4"
hmac = "=0.12.1"
ml-kem = "=0.3.4"
sha2 = "=0.10.9"
subtle = "=2.6.1"
x25519-dalek = "=2.0.1"
zeroize = "=1.9.1"
serde = { version = "=1.0.229", features = ["derive"] }
serde_json = "=1.0.154"
arbitrary = { version = "=1.5.0", features = ["derive"] }
dudect-bencher = "*"
