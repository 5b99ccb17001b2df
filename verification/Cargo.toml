[package]
name = "authd"
version = "0.1.0"
edition = "2021"
publish = false

[dependencies]
serde_json = "1"
toml = "*"
serde = { version = "1", features = ["derive"] }
anyhow = "1"
tokio = { version = "1", features = ["full"] }
rustls = "0.21"
tokio-rustls = "0.24"
tarpc = { version = "0.33", features = ["full"] }
stubborn-io = "0.3"
trust-dns-resolver = "0.23"
libnss = "*"
libc = "0.2"
lazy_static = "1"
futures = "0.3"
tracing = "0.1"
tracing-subscriber = "0.3"
tracing-appender = "0.2"
