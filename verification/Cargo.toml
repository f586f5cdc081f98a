[package]
name = "extension_host"
version = "0.1.0"
edition = "2021"
publish = false

[dependencies]
anyhow = "=1.0.104"
futures-util = "=0.3.34"
semver = { version = "=1.0.28", features = ["serde"] }
serde = { version = "=1.0.229", features = ["derive"] }
serde_json = "=1.0.154"
thiserror = "=1.0.69"
tokio = { version = "=1.54.1", features = ["fs", "rt", "rt-multi-thread", "sync", "time"] }
wasmparser = "=0.262.0"
wasmtime = "=36.0.19"
wasmtime-wasi = "=36.0.19"
