[package]
name = "core_lib"
version = "0.1.0"
edition = "2021"
publish = false

[dependencies]
argon2 = "=0.5.3"
base64 = "=0.22.1"
chacha20poly1305 = "=0.10.1"
rand = "=0.8.8"
serde = { version = "=1.0.229", features = ["derive"] }
serde_json = "=1.0.154"
encoding_rs = "=0.8.44"
chrono = { version = "=0.4.45", default-features = false, features = ["clock", "std"] }
rusqlite = { version = "=0.32.1", features = ["bundled"] }
tungstenite = { version = "=0.24.0", default-features = false, features = ["handshake"] }
