[package]
name = "scrap_markdown"
version = "0.1.0"
edition = "2021"
publish = false

[dependencies]
sanitize-filename = "*"
serde = { version = "1", features = ["derive"] }
serde_json = "1"
reqwest = { version = "0.12", features = ["blocking", "json"] }
