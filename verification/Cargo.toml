[package]
name = "lify_control"
version = "0.1.0"
edition = "2021"
publish = false

[dependencies]
anyhow = "1"
futures = "0.3"
tokio = { version = "1", features = ["net", "sync", "time", "macros", "rt-multi-thread"] }
tower = { version = "0.5", features = ["util"] }
