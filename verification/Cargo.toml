[package]
name = "cssforge"
version = "0.4.0"
edition = "2021"
publish = false

[dependencies]
anyhow = "1"
clap = { version = "4", features = ["derive"] }
crossterm = "0.28"
ignore = "0.4"
lightningcss = "1.0.0-alpha.63"
ratatui = "0.29"
serde = { version = "1", features = ["derive"] }
serde_json = "1"
similar = "2"
