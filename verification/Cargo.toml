[package]
name = "ra_multiplex"
version = "0.1.0"
edition = "2021"
publish = false

[dependencies]
toml = "=0.5.11"
tracing-subscriber = { version = "=0.3.23", features = ["env-filter"] }
tracing-appender = "=0.2.5"
directories = "=5.0.1"
tokio = { version = "=1.53.2", features = ["rt", "rt-multi-thread", "fs", "sync", "macros"] }
anyhow = "=1.0.104"
