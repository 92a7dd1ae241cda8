[package]
name = "lbs"
version = "0.1.0"
edition = "2021"
publish = false

[dependencies]
chrono = { version = "0.4", default-features = false }
proc-macro2 = "=1.0.107"
quote = "=1.0.47"
syn = { version = "=2.0.119", features = ["full"] }
thiserror = "=1.0.69"

[dev-dependencies]
bytes = "=1.12.1"
