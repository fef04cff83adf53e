[package]
name = "qwobot"
version = "0.1.0"
edition = "2021"
publish = false

[dependencies]
regex = "1"
sha2 = "0.10"
config = { version = "0.14", default-features = false, features = ["toml"] }
poise = "0.6"
tokio = { version = "1", features = ["rt-multi-thread", "macros", "sync", "time", "signal"] }
reqwest = { version = "0.11", default-features = false, features = ["rustls-tls"] }
tracing = "0.1"
tracing-subscriber = { version = "0.3", features = ["env-filter"] }
dotenvy = "0.15"
anyhow = "1"
serde = { version = "1", features = ["derive"] }
thiserror = "1"
