[package]
name = "backtest_engine"
version = "0.1.0"
edition = "2021"
publish = false

[dependencies]
chrono = "0.4"
rustc-hash = "2"
serde = { version = "1", features = ["derive"] }
serde_json = "1"
toml = "0.8"
clap = { version = "4", features = ["derive"] }
env_logger = "0.11"
comfy-table = "7"
arrow = { version = "54", default-features = false }
parquet = { version = "54", default-features = false, features = ["arrow", "snap", "lz4"] }
