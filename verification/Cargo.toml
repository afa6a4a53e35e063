[package]
name = "bootnode"
version = "0.1.0"
edition = "2021"
publish = false

[dependencies]
anyhow = "1"
async-trait = "0.1"
clap = { version = "4", features = ["derive", "env"] }
deadpool-postgres = "*"
jsonrpsee = { version = "*", default-features = false, features = ["server", "macros", "http-client"] }
metrics = "*"
metrics-exporter-prometheus = { version = "*", default-features = false }
serde = { version = "1", features = ["derive"] }
serde_json = "1"
tokio = { version = "1", features = ["macros", "rt-multi-thread", "signal", "sync", "time", "net"] }
tokio-postgres = { version = "0.7", features = ["with-serde_json-1"] }
tracing = "0.1"
url = { version = "2", features = ["serde"] }
