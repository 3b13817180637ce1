[package]
name = "league_helper"
version = "0.1.0"
edition = "2021"
publish = false

[dependencies]
json = "*"
regex = "*"
serde_json = "*"
serde = { version = "*", features = ["derive"] }
reqwest = { version = "*", default-features = false, features = ["rustls-tls"] }
tokio = { version = "*", features = ["rt-multi-thread", "macros", "time", "fs", "sync"] }
futures = "*"
snap = "*"
inputbot = "*"
