[package]
name = "lane_scheduler"
version = "0.1.0"
edition = "2021"
publish = false

[dependencies]
tokio = { version = "1", features = ["rt", "rt-multi-thread", "macros"] }
futures = "0.3"
