[package]
name = "alpha-g-elogger"
version = "0.1.0"
edition = "2021"
publish = false

[dependencies]
anyhow = "1"
clap = { version = "4", features = ["derive"] }
csv = "1"
dialoguer = "0.11"
directories = "5"
indent = "0.1"
indicatif = "0.17"
jiff = "0.1"
regex = "1"
reqwest = { version = "0.12", default-features = false, features = ["blocking"] }
serde = { version = "1", features = ["derive"] }
serde_json = "1"
tabled = "0.16"
tempfile = "3"
toml = "0.8"
tungstenite = "0.24"
