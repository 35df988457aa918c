[package]
name = "deck_analyzer"
version = "0.1.0"
edition = "2021"
publish = false

[dependencies]
clap = { version = "4", features = ["derive"] }
reqwest = { version = "0.12", features = ["blocking"] }
rusqlite = "0.32"
serde = { version = "1", features = ["derive"] }
serde_json = "1"
url = "2"
