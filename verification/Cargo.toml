[package]
name = "kvstore"
version = "0.1.0"
edition = "2021"
publish = false

[dependencies]
chrono = { version = "*", features = ["serde"] }
clap = { version = "*", features = ["derive"] }
crossterm = "*"
fuzzy-matcher = "*"
log = "*"
rusqlite = "*"
serde = { version = "*", features = ["derive"] }
serde_json = "*"
simplelog = "*"
thiserror = "*"
toml = "*"
