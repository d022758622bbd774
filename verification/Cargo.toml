[package]
name = "exchange_rs"
version = "0.1.0"
edition = "2021"
publish = false

[dependencies]
crossbeam = "*"
crossbeam-utils = "*"
dashmap = "*"
parking_lot = "*"
rayon = "*"
thiserror = "*"
tokio = { version = "*", features = ["net", "io-util", "rt-multi-thread", "macros", "time", "sync"] }
tracing = "*"
tracing-subscriber = "*"
num_cpus = "*"
