[package]
name = "mpmc_channel"
version = "0.1.0"
edition = "2021"
publish = false

[dependencies]
thiserror = "=2.0.21"

[dev-dependencies]
tokio = { version = "1", features = ["rt", "rt-multi-thread"] }
