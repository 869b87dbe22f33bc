[package]
name = "databend"
version = "0.1.0"
edition = "2021"
publish = false

[dependencies]
bincode = "1"
chrono-tz = "*"
petgraph = "*"
uuid = { version = "1", features = ["v4"] }
moka = { version = "0.12", features = ["sync"] }
jsonb = "*"
serde = { version = "1", features = ["derive", "rc"] }
serde_json = "1"
clap = { version = "4", features = ["derive"] }
walkdir = "2"
parking_lot = "0.12"
async-channel = "2"
tokio = { version = "1", features = ["sync", "time", "rt", "macros"] }
futures = "0.3"
backoff = "0.4"
log = "0.4"
arrow-schema = "*"
tonic = { version = "0.12", default-features = false, features = ["transport"] }
bytes = "1"
