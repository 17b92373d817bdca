[package]
name = "sqlrustgo"
version = "0.3.0"
edition = "2021"
publish = false

[dependencies]
chrono = { version = "0.4", default-features = false }
thiserror = "1"
