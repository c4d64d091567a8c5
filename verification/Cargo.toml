[package]
name = "py_interop"
version = "0.1.0"
edition = "2021"
publish = false

[dependencies]
anyhow = "1"
chrono = { version = "0.4", default-features = false, features = ["clock", "std"] }
crossbeam-channel = "0.5"
dashmap = "*"
num-bigint = "0.4"
primes = "*"
pyo3 = { version = "0.24", features = ["chrono"] }
rayon = "1"
reqwest = { version = "0.12", default-features = false, features = ["blocking"] }
scraper = "*"
tokio = { version = "1", features = ["rt-multi-thread", "sync", "time"] }
tracing = "0.1"
tracing-subscriber = "0.3"
url = "2"
