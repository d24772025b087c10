[package]
name = "chatgpt_notes"
version = "0.1.0"
edition = "2021"
publish = false

[dependencies]
clap = "=4.6.7"
reqwest = { version = "=0.11.27", features = ["json"] }
scraper = "=0.29.0"
serde = { version = "=1.0.229", features = ["derive"] }
serde_json = "=1.0.154"
surrealdb = { version = "=1.0.0-beta.8", default-features = false, features = ["kv-mem"] }
tiktoken-rs = "=0.12.1"
tokio = { version = "=1.54.1", features = ["fs", "io-util", "macros", "rt-multi-thread"] }
