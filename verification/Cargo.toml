[package]
name = "nexo"
version = "0.2.0"
edition = "2021"
publish = false

[dependencies]
argon2 = { version = "=0.5.3", features = ["std"] }
axum = { version = "=0.8.9", default-features = false, features = ["http1", "json", "tokio", "query"] }
base64 = "=0.22.1"
clap = { version = "=4.6.7", features = ["derive"] }
futures-util = "=0.3.34"
hex = "=0.4.3"
hickory-resolver = "=0.24.4"
idna = "=1.1.0"
ipnet = "=2.12.2"
jsonwebtoken = "=9.3.1"
libc = "=0.2.191"
oxide-auth = "=0.6.1"
pem = "=3.0.6"
rand = "=0.8.8"
rcgen = { version = "=0.14.10", features = ["x509-parser"] }
reqwest = { version = "=0.12.28", default-features = false, features = ["json", "rustls-tls"] }
rsa = "=0.9.10"
rusqlite = { version = "=0.32.1", features = ["bundled"] }
rustls-native-certs = "=0.8.5"
rustls-pemfile = "=2.2.0"
serde = { version = "=1.0.229", features = ["derive"] }
serde_json = { version = "=1.0.154", features = ["preserve_order"] }
sha2 = "=0.10.9"
time = "=0.3.55"
tokio = { version = "=1.54.1", features = ["full"] }
tokio-rustls = { version = "=0.26.6", default-features = false, features = ["ring", "tls12", "logging"] }
tokio-util = { version = "=0.7.20", features = ["codec", "compat"] }
uuid = { version = "=1.29.0", features = ["v4"] }
x509-parser = { version = "=0.17.0", features = ["verify"] }
yamux = "=0.13.10"
