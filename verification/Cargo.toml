[package]
name = "torrent_search_client"
version = "0.1.0"
edition = "2021"
publish = false

[dependencies]
sha2 = "*"
hex = "*"
chrono = "*"
dashmap = "*"
tokio = { version = "*", features = ["sync", "time", "rt", "rt-multi-thread", "macros"] }
futures = "*"
log = "*"
serde = { version = "*", features = ["derive"] }
