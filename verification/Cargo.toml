[package]
name = "gptcli"
version = "0.1.0"
edition = "2021"
publish = false

[dependencies]
anyhow = "=1.0.104"
async-openai = { version = "=0.42.2", features = ["responses"] }
clap = { version = "=4.6.7", features = ["derive"] }
dirs = "=7.0.0"
dotenvy = "=0.15.7"
ignore = "=0.4.33"
regex = "=1.13.1"
reqwest = "=0.13.5"
rusqlite = { version = "=0.41.0", features = ["bundled"] }
serde = { version = "=1.0.229", features = ["derive"] }
serde_json = "=1.0.154"
sha2 = "=0.10.9"
time = { version = "=0.3.55", features = ["formatting"] }
tokio = { version = "=1.54.1", features = ["macros", "rt-multi-thread", "fs"] }
toml = "=1.1.8"
tracing = "=0.1.44"
tracing-subscriber = { version = "=0.3.23", features = ["env-filter"] }
