[package]
name = "stats_server"
version = "0.1.0"
edition = "2021"
publish = false

[dependencies]
chrono = "*"
hyper = { version = "1", features = ["server", "http1"] }
hyper-util = { version = "*", features = ["tokio"] }
http-body-util = "*"
tokio = { version = "1", features = ["net", "rt-multi-thread", "macros"] }

[dev-dependencies]
serde_json = "*"
