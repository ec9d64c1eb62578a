[package]
name = "leetbot"
version = "0.1.0"
edition = "2021"
publish = false

[dependencies]
chrono = "=0.4.45"
chrono-tz = { version = "=0.10.4", features = ["case-insensitive"] }
anyhow = "*"
dotenv = "*"
emojis = "*"
env_logger = "*"
log = "*"
poise = "*"
serenity = "*"
sqlx = { version = "*", features = ["runtime-tokio", "sqlite"] }
tokio = { version = "*", features = ["macros", "rt-multi-thread", "time"] }
