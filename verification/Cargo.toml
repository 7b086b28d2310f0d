[package]
name = "chat_relay"
version = "0.1.0"
edition = "2021"
publish = false

[dependencies]
unicase = "2"
minijinja = "1"
rand = "0.8"
bimap = "0.6"
serenity = "0.11"
async-openai = "0.12"
async-trait = "0.1"
tokio = { version = "1", features = ["full"] }
rusqlite = "0.29"
tokio-rusqlite = "0.4"
chrono = "0.4"
clap = { version = "4", features = ["derive"] }
dotenv = "0.15"
env_logger = "0.10"
eyre = "0.6"
log = "0.4"
serde = { version = "1", features = ["derive"] }
serde_json = "1"
