[package]
name = "sidetab"
version = "0.2.1"
edition = "2021"
publish = false

[dependencies]
anyhow = "1"
dirs = "*"
freedesktop-icons = "*"
futures = "0.3"
fuzzy-matcher = "0.3"
resvg = "*"
serde = { version = "1", features = ["derive"] }
serde_json = "1"
toml = "*"
