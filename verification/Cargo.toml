[package]
name = "man_tui"
version = "0.1.0"
edition = "2021"
publish = false

[dependencies]
fuzzy-matcher = "0.3"
anyhow = "1"
dirs = "5"
serde = { version = "1", features = ["derive"] }
toml = "0.8"
ratatui = "0.28"
crossterm = "0.28"
