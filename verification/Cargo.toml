[package]
name = "askama"
version = "0.1.0"
edition = "2021"
publish = false

[dependencies]
percent-encoding = "2"
mime_guess = "2"
serde = { version = "1", features = ["derive"] }
basic-toml = "0.1"
serde_json = "1"
