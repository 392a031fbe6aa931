[package]
name = "devfolio_cli_rust"
version = "0.1.0"
edition = "2021"
publish = false

[dependencies]
regex = "=1.13.1"
html-escape = "=0.2.15"
anyhow = "=1.0.104"
clap = { version = "=4.6.7", features = ["derive"] }
serde = { version = "=1.0.229", features = ["derive"] }
reqwest = { version = "=0.12.28", default-features = false, features = ["blocking", "json", "rustls-tls"] }
