[package]
name = "lite_relay"
version = "0.1.0"
edition = "2021"
publish = false

[dependencies]
dashmap = "*"
itertools = "*"
tokio = { version = "*", features = ["full"] }
tokio-postgres = "*"
anyhow = "*"
log = "*"
futures-util = "*"
