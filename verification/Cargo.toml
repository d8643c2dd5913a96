[package]
name = "zeph"
version = "0.1.0"
edition = "2021"
publish = false

[dependencies]
anyhow = "1"
async-trait = "0.1"
axum = "0.7"
blake3 = "1"
clap = { version = "4", features = ["derive"] }
dirs = "5"
futures = "0.3"
hex = "0.4"
postcard = { version = "1", features = ["use-std"] }
rand = "0.8"
rusqlite = { version = "0.31", features = ["bundled"] }
serde = { version = "1", features = ["derive"] }
serde_json = "1"
tikv-jemalloc-ctl = "0.6"
tikv-jemallocator = "0.6"
tokio = { version = "1", features = ["full"] }
tokio-stream = { version = "0.1", features = ["sync"] }
toml = "0.8"
tracing = "0.1"
tracing-subscriber = { version = "0.3", features = ["env-filter"] }

[dev-dependencies]
ed25519-dalek = "2"
