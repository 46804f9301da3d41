[package]
name = "quicframe"
version = "0.1.0"
edition = "2021"
publish = false

[dependencies]
anyhow = "1"
quinn = { version = "0.11", default-features = false, features = ["log", "runtime-tokio", "rustls-ring"] }
tokio = { version = "1", features = ["rt", "rt-multi-thread", "time", "macros", "sync"] }
rcgen = "0.13"
rustls = { version = "0.23", default-features = false, features = ["ring", "std", "logging", "tls12"] }
rustls-pki-types = "1"
