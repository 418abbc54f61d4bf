[package]
name = "claude_chat"
version = "0.1.0"
edition = "2021"
publish = false

[dependencies]
anyhow = "*"
clap = { version = "*", features = ["derive"] }
crossterm = "*"
pulldown-cmark = "*"
ratatui = "*"
reqwest = { version = "*", default-features = false, features = ["json", "rustls-tls"] }
serde = { version = "*", features = ["derive"] }
serde_json = "*"
syntect = { version = "*", default-features = false, features = ["default-fancy"] }
tempfile = "*"
tokio = { version = "*", features = ["rt-multi-thread", "macros"] }
uuid = { version = "*", features = ["v4"] }
webbrowser = "*"
