[package]
name = "ippan"
version = "0.1.0"
edition = "2021"
publish = false

[dependencies]
aes-gcm = "=0.10.3"
bincode = "=1.3.3"
chrono = "=0.4.45"
ed25519-dalek = "2"
flate2 = "=1.1.10"
hex = "=0.4.3"
rand = "=0.8.8"
regex = "=1.13.1"
serde = { version = "=1.0.229", features = ["derive"] }
serde_json = "=1.0.154"
sha2 = "=0.10.9"
uuid = { version = "=1.29.0", features = ["v4"] }
