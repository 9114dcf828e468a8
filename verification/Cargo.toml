[package]
name = "screenshot_store"
version = "0.1.0"
edition = "2021"
publish = false

[dependencies]
base64 = "*"
chrono = "*"
dirs = "*"
image = { version = "*", default-features = false, features = ["png"] }
keyring = "*"
reqwest = { version = "*", default-features = false, features = ["rustls-tls", "multipart", "json"] }
serde = { version = "*", features = ["derive"] }
serde_json = "*"
uuid = { version = "*", features = ["v4"] }
