[package]
name = "drop_core"
version = "0.1.0"
edition = "2021"
publish = false

[dependencies]
tokio = { version = "1", features = ["sync", "rt-multi-thread", "macros", "time"] }
tokio-util = "0.7"
rusqlite = { version = "*", features = ["bundled"] }
uuid = "1"
governor = "*"
