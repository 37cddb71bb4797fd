[package]
name = "netpulse_core"
version = "0.1.0"
edition = "2021"
publish = false

[dependencies]
anyhow = "1"
futures = "0.3"
ndb-tcp-service = "*"
ndb-udp-service = "*"
netdev = "*"
num_cpus = "1"
rand = "0.8"
serde = { version = "1", features = ["derive"] }
serde_json = "1"
tokio = { version = "1", features = ["rt-multi-thread", "time", "sync", "net", "macros"] }
tracing = "0.1"
uuid = { version = "1", features = ["v4"] }
