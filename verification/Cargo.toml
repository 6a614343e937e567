[package]
name = "ai_memory_wiki"
version = "0.1.0"
edition = "2021"
publish = false

[dependencies]
pulldown-cmark = { version = "*", default-features = false }
serde = { version = "1", features = ["derive"] }
serde_json = "1"
serde_yaml = "*"
