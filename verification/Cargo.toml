[package]
name = "nba_hub"
version = "0.1.0"
edition = "2021"
publish = false

[dependencies]
anyhow = "1"
chrono = "0.4"
clap = { version = "4", features = ["derive"] }
csv = "1"
dotenv = "*"
env_logger = "*"
log = "0.4"
regex = "1"
reqwest = { version = "0.12", default-features = false, features = ["json"] }
robotstxt = "*"
scraper = "*"
serde = { version = "1", features = ["derive"] }
serde_json = "1"
tokio = { version = "1", features = ["macros", "rt-multi-thread", "sync", "time"] }
url = "2"
