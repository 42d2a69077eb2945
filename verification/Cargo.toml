[package]
name = "mdtool"
version = "0.1.0"
edition = "2021"
publish = false

[dependencies]
comrak = { version = "=0.59.0", default-features = false }
serde = { version = "=1.0.229", features = ["derive"] }
serde_json = "=1.0.154"
schemars = "=0.8.22"
clap = { version = "=4.6.7", features = ["derive"] }
anyhow = "=1.0.104"
thiserror = "=1.0.69"
rmcp = { version = "=0.1.5", features = ["server", "transport-io"] }
tokio = { version = "=1.54.1", features = ["macros", "rt-multi-thread", "io-std"] }
tracing = "=0.1.44"
tracing-subscriber = { version = "=0.3.23", features = ["env-filter"] }
