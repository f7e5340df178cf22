[package]
name = "esotereel"
version = "0.1.0"
edition = "2021"
publish = false

[dependencies]
anyhow = "=1.0.104"
toml = "=0.8.23"
tokio = { version = "=1.54.1", features = ["rt-multi-thread", "net", "io-util", "sync", "macros"] }
log = "=0.4.35"
rkyv = { version = "0.7", features = ["validation"] }
colored = "2"
