[package]
name = "mempool_partitioner"
version = "0.1.0"
edition = "2021"
publish = false

[dependencies]
clap = { version = "4", features = ["derive"] }
env_logger = "0.11"
log = "0.4"
rusqlite = { version = "0.40", features = ["bundled"] }
serde_json = "1"
shellexpand = "=3.1.2"
thiserror = "2"
