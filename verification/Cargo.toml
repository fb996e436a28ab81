[package]
name = "teckel"
version = "0.1.0"
edition = "2021"
publish = false

[dependencies]
petgraph = "=0.6.5"
serde = { version = "=1.0.229", features = ["derive"] }
serde_yaml = "=0.9.34"
