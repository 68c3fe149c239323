[package]
name = "cairn"
version = "0.1.0"
edition = "2021"
publish = false

[dependencies]
idna = "=1.1.0"
uuid = { version = "=1.29.0", features = ["v4"] }
serde = { version = "=1.0.229", features = ["derive"] }
serde_json = "=1.0.154"
getrandom = "=0.3.4"
keyring = "=3.6.3"
libc = "=0.2.191"
dirs = "=6.0.0"
sha2 = "0.10"
