[package]
name = "rust-signatures-mcp"
version = "0.2.0"
edition = "2021"
publish = false

[dependencies]
syn = { version = "=2.0.119", features = ["full", "visit"] }
quote = "=1.0.47"
proc-macro2 = "=1.0.107"
regex = "=1.13.1"
semver = "=1.0.28"
serde = { version = "=1.0.229", features = ["derive"] }
serde_json = "=1.0.154"
ignore = "=0.4.34"
clap = { version = "=4.6.7", features = ["derive"] }
rmcp = { version = "=3.8.0", features = ["server", "macros", "transport-io"] }
schemars = "=1.2.3"
tokio = { version = "=1.54.1", features = ["rt-multi-thread"] }
