[package]
name = "ptv"
version = "0.1.0"
edition = "2021"
publish = false

[dependencies]
heck = "*"
num-to-words = "*"
hmac = "=0.12.1"
sha1 = "=0.10.7"
hex = "*"
serde = { version = "*", features = ["derive"] }
serde_json = "*"
serde_path_to_error = "*"
reqwest = { version = "=0.12.28", default-features = false, features = ["rustls-tls", "json"] }
chrono = { version = "*", features = ["serde"] }
anyhow = "*"
codegen = "*"
