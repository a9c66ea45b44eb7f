[package]
name = "shuffle"
version = "0.1.0"
edition = "2021"
publish = false

[dependencies]
anyhow = "1"
futures = "0.3"
prost = "0.13"
tokio = { version = "1", features = ["sync"] }
tonic = "0.12"
tracing = "0.1"
