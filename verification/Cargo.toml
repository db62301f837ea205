[package]
name = "clanwars"
version = "0.1.0"
edition = "2021"
publish = false

[dependencies]
regex = "1"
serde = { version = "1", features = ["derive"] }
serde_json = "1"
toml = "0.8"
tokio = { version = "1", features = ["macros", "rt-multi-thread", "sync", "net"] }
axum = { version = "0.7", features = ["multipart"] }
sqlx = { version = "0.7", default-features = false, features = ["sqlite", "runtime-tokio"] }
poise = "0.6"
serenity = "0.12"
reqwest = { version = "0.11", default-features = false, features = ["json", "rustls-tls"] }
chrono = "0.4"
dotenv = "0.15"
tracing-subscriber = "0.3"
