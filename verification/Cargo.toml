[package]
name = "parcli"
version = "0.1.0"
edition = "2021"
rust-version = "1.80"
publish = false

[dependencies]
anyhow = "1"
async-trait = "0.1"
chromiumoxide = "0.9"
chrono = { version = "0.4", features = ["serde"] }
clap = { version = "4", features = ["derive"] }
crossterm = { version = "0.29", features = ["event-stream"] }
directories = "6"
futures = "0.3"
ratatui = "0.30"
reqwest = { version = "0.12", default-features = false, features = ["rustls-tls", "json"] }
serde = { version = "1", features = ["derive"] }
serde_json = "1"
tokio = { version = "1", features = ["rt-multi-thread", "macros", "time", "sync", "signal"] }
toml = "1"
tui-input = "0.15"
