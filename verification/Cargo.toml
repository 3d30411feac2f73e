[package]
name = "pronoun_bot"
version = "0.1.0"
edition = "2021"
publish = false

[dependencies]
anyhow = "1"
chrono = "0.4"
fuzzy-matcher = "*"
getrandom = "*"
poise = "0.6"
rand = "*"
serde = { version = "1", features = ["derive"] }
serenity = "0.12"
tokio = { version = "1", features = ["full"] }
toml = "*"
