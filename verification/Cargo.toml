[package]
name = "mununu_core"
version = "0.1.0"
edition = "2021"
publish = false

[dependencies]
memory-stats = "=1.2.0"
serde_json = "=1.0.154"
tracing = "=0.1.44"
