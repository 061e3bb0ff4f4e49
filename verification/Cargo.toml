[package]
name = "op_batcher_collector"
version = "0.1.0"
edition = "2021"
publish = false

[dependencies]
envy = "0.4"
reqwest = { version = "0.12", default-features = false, features = ["json"] }
serde = { version = "1", features = ["derive"] }
serde_json = "1"
time = { version = "0.3", features = ["formatting", "parsing"] }
tokio = { version = "1", features = ["io-util", "net", "rt-multi-thread", "time"] }
