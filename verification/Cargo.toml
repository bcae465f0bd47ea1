[package]
name = "vault"
version = "0.1.0"
edition = "2021"
publish = false

[dependencies]
age = "0.11"
anyhow = "1"
clap = { version = "4", features = ["derive"] }
dirs = "6"
rpassword = "7"
serde = { version = "1", features = ["derive"] }
toml = "0.8"
