[package]
name = "torsten-network"
version = "0.1.0"
edition = "2021"
publish = false

[dependencies]
bytes = "1"
hex = "0.4"
minicbor = { version = "0.26", features = ["alloc", "std"] }
thiserror = "1"
tokio = { version = "1", features = ["io-util", "macros", "net", "rt", "rt-multi-thread", "sync", "time"] }
tracing = "0.1"
