[package]
name = "tls_pki"
version = "0.1.0"
edition = "2021"
publish = false

[dependencies]
const-oid = "0.10"
der = { version = "0.8", features = ["alloc", "oid"] }
digest = "0.10"
ed25519-dalek = "2"
heapless = "0.8"
p256 = "0.13"
p384 = "0.13"
rsa = { version = "0.9", features = ["sha2"] }
sha2 = { version = "0.10", features = ["oid"] }
