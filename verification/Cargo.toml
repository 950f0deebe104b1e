[package]
name = "shell_bun"
version = "0.1.0"
edition = "2021"
publish = false

[dependencies]
anyhow = "*"
chrono = "*"
crossterm = "*"
dirs = "*"
glob = "*"
ratatui = "*"
tokio = { version = "*", features = ["rt-multi-thread", "macros", "process"] }
