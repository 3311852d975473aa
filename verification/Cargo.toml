[package]
name = "heteroprof"
version = "0.1.0"
edition = "2021"
publish = false

[dependencies]
petgraph = "=0.8.3"
priority-queue = "=2.7.0"
intervallum = "*"
gcollections = "=1.6.0"
serde = { version = "=1.0.229", features = ["derive"] }
serde_json = "=1.0.154"
