[package]
name = "odm"
version = "0.1.0"
edition = "2021"
publish = false

[dependencies]
url = "=2.5.8"
uuid = { version = "=1.29.0", features = ["v4"] }
tokio = { version = "=1.54.1", features = ["full"] }
reqwest = { version = "=0.12.28", default-features = false, features = ["rustls-tls", "stream", "http2"] }
rusqlite = { version = "=0.41.1", features = ["bundled"] }
librqbit = { version = "=9.1.0", default-features = false, features = ["rust-tls"] }
clap = { version = "=4.6.7", features = ["derive"] }
indicatif = "=0.18.6"
tracing = "=0.1.44"
tracing-subscriber = { version = "=0.3.23", features = ["env-filter"] }
serde = { version = "=1.0.229", features = ["derive"] }
serde_json = "=1.0.154"
anyhow = "=1.0.104"
thiserror = "=1.0.69"
async-trait = "=0.1.92"
futures-util = "=0.3.34"
bytes = "=1.12.1"
async-stream = "=0.3.6"
