[package]
name = "smt_core"
version = "0.1.0"
edition = "2021"
publish = false

[dependencies]
bytes = "1"
rust_decimal = { version = "1", default-features = false, features = ["std"] }
tokio = { version = "1", features = ["full"] }
clap = { version = "4", features = ["derive"] }
chrono = "0.4"
core_affinity = "0.8"
libc = "0.2"
thiserror = "1"
tracing = "0.1"
tracing-subscriber = { version = "0.3", features = ["env-filter"] }
