[package]
name = "aleph-bft"
version = "0.1.0"
edition = "2021"
publish = false

[dependencies]
futures = "0.3"
futures-timer = "3.0"
log = "0.4"
tokio = { version = "1", features = ["rt-multi-thread", "sync"] }
