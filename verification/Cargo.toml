[package]
name = "pask"
version = "0.1.0"
edition = "2021"
publish = false

[dependencies]
coset = "=0.4.2"
sha2 = "=0.10.9"
ed25519-dalek = { version = "=2.2.0", features = ["pkcs8", "pem"] }
p256 = { version = "=0.13.2", features = ["ecdsa"] }
serde = { version = "=1.0.229", features = ["derive"] }
serde_json = { version = "=1.0.154", features = ["float_roundtrip"] }
time = { version = "=0.3.55", features = ["parsing"] }
fluent-uri = "=0.4.1"
ryu-js = "=1.0.3"
reqwest = { version = "=0.12.28", default-features = false, features = ["blocking", "rustls-tls"] }
clap = { version = "=4.6.7", features = ["derive"] }
anyhow = "=1.0.104"
thiserror = "=2.0.21"
