[package]
name = "xfer"
version = "0.1.0"
edition = "2021"
publish = false

[dependencies]
anyhow = "*"
axum = "0.8"
chacha20poly1305 = "0.10"
clap = { version = "4", features = ["derive"] }
eff-wordlist = "*"
flate2 = "*"
infer = "*"
rand = "0.9"
reqwest = { version = "0.12", default-features = false, features = ["blocking", "json"] }
serde = { version = "1", features = ["derive"] }
tar = "0.4"
tokio = { version = "1", features = ["full"] }
url = "*"

[dev-dependencies]
hex = "*"
