[package]
name = "tabula"
version = "0.1.0"
edition = "2021"
publish = false

[dependencies]
wat = "*"
regex = "*"
clap = { version = "*", features = ["derive"] }
anyhow = "*"
serde = { version = "*", features = ["derive"] }
serde_json = "*"
toml = "*"
