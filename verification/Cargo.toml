[package]
name = "tailpager"
version = "0.1.0"
edition = "2021"

[dependencies]
anyhow = "1"
crossterm = "0.28"
ratatui = "0.29"
tokio = { version = "1", features = ["io-std", "io-util", "macros", "rt-multi-thread"] }
