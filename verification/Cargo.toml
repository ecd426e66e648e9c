[package]
name = "marzban-node"
version = "0.1.0"
edition = "2021"
publish = false

[dependencies]
base64 = "0.22"
httparse = "1"
rustls = "0.23"
rustls-pemfile = "2"
rustls-pki-types = "1"
serde = { version = "1", features = ["derive"] }
serde_json = "1"
sha1 = "0.10"
uuid = { version = "1", features = ["serde", "v4"] }
