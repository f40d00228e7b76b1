[package]
name = "fontsource_downloader"
version = "0.1.0"
edition = "2021"
publish = false

[dependencies]
directories = "=6.0.0"
pyo3 = { version = "*", features = ["abi3-py39"] }
pyo3-async-runtimes = { version = "*", features = ["tokio-runtime"] }
reqwest = { version = "=0.12.28", default-features = false, features = ["rustls-tls"] }
serde = { version = "=1.0.229", features = ["derive"] }
serde_json = "=1.0.154"
thiserror = "=2.0.21"
tokio = { version = "=1.54.1", features = ["rt", "rt-multi-thread", "macros"] }
