[package]
name = "evie_core"
version = "0.1.0"
edition = "2021"
publish = false

[dependencies]
ropey = "1"
tokio = { version = "1", default-features = false, features = ["fs", "io-util"] }
