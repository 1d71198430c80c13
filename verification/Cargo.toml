[package]
name = "shika"
version = "0.1.0"
edition = "2021"
publish = false

[dependencies]
anyhow = "=1.0.104"
clap = { version = "=4.6.7", features = ["derive"] }
colored = "=3.1.1"
dotenvy = "=0.15.7"
futures = "=0.3.34"
indicatif = "=0.18.6"
serde = { version = "=1.0.229", features = ["derive"] }
serde_yaml = "=0.9.34"
sqlx = { version = "=0.9.0", features = ["postgres", "runtime-tokio"] }
tera = "=1.20.1"
tokio = { version = "=1.53.2", features = ["rt-multi-thread"] }
