[package]
name = "d2r"
version = "0.1.0"
edition = "2021"
publish = false

[dependencies]
futures = "0.3"
serde = { version = "1", features = ["derive"] }
sysinfo = "*"
thiserror = "*"
tokio = { version = "1", features = ["rt", "sync", "macros"] }
tracing = "0.1"
wmi = "*"
