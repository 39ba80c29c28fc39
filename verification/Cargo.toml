[package]
name = "spark-host"
version = "0.2.0"
edition = "2021"
publish = false

[dependencies]
serde_json = "=1.0.154"
anyhow = "=1.0.104"
ureq = { version = "=2.12.1", features = ["json"] }
wasmtime = { version = "=46.0.3", default-features = false, features = ["runtime", "cranelift", "component-model", "std"] }
