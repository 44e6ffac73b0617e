[package]
name = "dns_benchmark"
version = "0.1.0"
edition = "2021"
publish = false

[dependencies]
hickory-proto = "0.24"
rand = "0.8"
tokio = { version = "1", features = ["net", "time", "sync", "rt-multi-thread", "macros"] }
clap = { version = "4", features = ["derive"] }
comfy-table = "7"
csv = "1"
anyhow = "1"
