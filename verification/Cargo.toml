[package]
name = "overseerd_tooling"
version = "0.1.0"
edition = "2021"
publish = false

[dependencies]
serde_json = "1"
syn = { version = "2", features = ["full"] }
proc-macro2 = "1"
quote = "1"
serde = { version = "1", features = ["derive"] }
thiserror = "2"
