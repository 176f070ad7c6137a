[package]
name = "opsbot"
version = "0.1.0"
edition = "2021"
rust-version = "1.95"
publish = false

[dependencies]
anyhow = "*"
chrono = "*"
dptree = "*"
reqwest = { version = "0.12", features = ["json"] }
serde = { version = "*", features = ["derive"] }
serde_json = "*"
takecell = "=0.1.1"
teloxide = { version = "*", features = ["webhooks-axum"] }
tokio = { version = "*", features = ["macros", "rt-multi-thread", "process", "time"] }
toml = "*"
tracing = "*"
tracing-subscriber = { version = "*", features = ["env-filter"] }
url = "*"
