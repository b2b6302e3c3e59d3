[package]
name = "ping_monitor"
version = "0.1.0"
edition = "2021"
publish = false

[dependencies]
crossterm = "0.28"
hickory-resolver = "0.24"
ratatui = "0.29"
rodio = { version = "0.20", default-features = false }
tokio = { version = "1", features = ["macros", "net", "rt-multi-thread", "signal", "sync", "time"] }
