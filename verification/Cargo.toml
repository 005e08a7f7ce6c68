[package]
name = "hummock_core"
version = "0.1.0"
edition = "2021"
publish = false

[dependencies]
itertools = "0.12"
tokio = { version = "1", default-features = false, features = ["sync"] }
