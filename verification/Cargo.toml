[package]
name = "thunder_orchard"
version = "0.1.0"
edition = "2021"
publish = false

[dependencies]
bitcoin = "*"
blake3 = "=1.8.7"
ed25519-dalek = { version = "=2.2.0", features = ["batch"] }
hex = "=0.4.3"
incrementalmerkletree = "=0.9.0"
orchard = "=0.16.0"
rustreexo = "=0.4.0"

[dev-dependencies]
borsh = "=1.8.1"
