[package]
name = "delta_log_replay"
version = "0.1.0"
edition = "2021"
publish = false

[dependencies]
itertools = "*"

[dev-dependencies]
serde_json = "*"
