[package]
name = "limbo_core"
version = "0.1.0"
edition = "2021"
publish = false

[dependencies]
anyhow = "=1.0.104"
sqlite3-parser = "=0.11.0"
