[package]
name = "nodedb_lite"
version = "0.1.0"
edition = "2021"
publish = false

[dependencies]
nodedb-types = { version = "=0.4.0", default-features = false }
nodedb-query = { version = "=0.4.0", default-features = false }
zerompk = "=0.6.1"
sonic-rs = "0.5"
serde = { version = "1", features = ["derive"] }
serde_json = "1"
lru = "0.18"
roaring = "0.11"
tokio = { version = "1", features = ["rt", "sync", "time"] }
async-trait = "0.1"
tracing = "0.1"
