[package]
name = "ratelimit"
version = "0.1.0"
edition = "2021"
publish = false

[dependencies]
async-trait = "0.1"
parking_lot = "0.12"
thiserror = "1"
tokio = { version = "1", default-features = false, features = ["sync", "time", "rt", "macros"] }
tokio-util = { version = "0.7", default-features = false }
