[package]
name = "gateway"
version = "0.1.0"
edition = "2021"
publish = false

[dependencies]
blake3 = "=1.8.7"
subtle = "=2.6.1"
rand = "=0.8.8"
base64 = "=0.22.1"
aes-gcm = "=0.10.3"
argon2 = "=0.5.3"
serde = { version = "=1.0.229", features = ["derive"] }
serde_json = "=1.0.154"
serde_yaml = "=0.9.34"
bincode = { version = "=2.0.1", features = ["serde"] }
zstd = "=0.13.4"
jsonwebtoken = "=9.3.1"
chrono = "=0.4.45"
http = "=1.5.0"
clap = { version = "=4.6.7", features = ["derive", "env"] }
uuid = { version = "1", features = ["v7"] }
