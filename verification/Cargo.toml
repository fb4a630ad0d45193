[package]
name = "account_ledger"
version = "0.1.0"
edition = "2021"
publish = false

[dependencies]
csv = "1"
log = "0.4"
pretty_env_logger = "0.5"
tokio = { version = "1", features = ["rt-multi-thread", "sync"] }
tokio-stream = "0.1"
