[package]
name = "prefrontal"
version = "0.1.0"
edition = "2021"
publish = false

[dependencies]
regex = "=1.13.1"
dirs = "=7.0.0"
chrono = "=0.4.45"
comrak = { version = "=0.59.0", default-features = false }
ammonia = "=4.2.4"
anyhow = "=1.0.104"
clap = { version = "=4.6.7", features = ["derive"] }
serde = { version = "=1.0.229", features = ["derive"] }
serde_json = "=1.0.154"
toml = "=1.1.8"
gix = { version = "=0.90.0", default-features = false, features = ["sha1", "status", "revision"] }
tantivy = { version = "=0.27.0", default-features = false, features = ["mmap"] }
axum = { version = "=0.8.9", default-features = false, features = ["ws", "http1", "tokio", "json", "query"] }
tokio = { version = "=1.54.1", features = ["rt-multi-thread", "macros", "sync", "net", "time"] }
tower-http = { version = "=0.6.11", features = ["fs"] }
tracing = "=0.1.44"
notify = "=8.2.1"
reqwest = { version = "=0.13.5", default-features = false, features = ["json"] }
tokio-tungstenite = "=0.29.0"
futures-util = "=0.3.34"
