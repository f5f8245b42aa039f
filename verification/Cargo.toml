[package]
name = "web_watcher_alert"
version = "0.1.0"
edition = "2021"
publish = false

[dependencies]
anyhow = "1"
chrono = "0.4"
crossterm = "*"
dirs = "*"
notify-rust = "4"
ratatui = "*"
reqwest = { version = "*", default-features = false }
similar = "2"
tokio = { version = "1", features = ["rt-multi-thread", "time", "sync", "macros"] }
uuid = { version = "1", features = ["v4"] }
