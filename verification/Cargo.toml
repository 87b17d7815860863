[package]
name = "headroom_effects"
version = "0.1.0"
edition = "2021"
publish = false

[dependencies]
crossbeam-channel = "0.5"
serde_json = "1"
tracing = "0.1"
