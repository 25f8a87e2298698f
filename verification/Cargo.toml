[package]
name = "vpower-shell"
version = "0.1.0"
edition = "2021"
publish = false

[dependencies]
anyhow = "=1.0.104"
arboard = { version = "3", default-features = false }
crossterm = { version = "=0.28.1", features = ["event-stream"] }
futures = "=0.3.34"
portable-pty = "=0.8.1"
ratatui = "=0.29.0"
tokio = { version = "=1.54.1", features = ["macros", "rt-multi-thread", "sync"] }
vte = "=0.13.1"
