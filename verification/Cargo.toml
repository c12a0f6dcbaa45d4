[package]
name = "hub75"
version = "0.1.0"
edition = "2021"
publish = false

[dependencies]
rppal = "*"
toml = "*"
serde = { version = "*", features = ["derive"] }
ctrlc = "*"
spin_sleep = "*"
reqwest = { version = "*", default-features = false, features = ["blocking", "rustls-tls"] }
