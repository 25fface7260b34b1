[package]
name = "timeline_filter"
version = "0.1.0"
edition = "2021"
publish = false

[dependencies]
anyhow = "=1.0.104"
axum = "=0.8.9"
chrono = "=0.4.45"
duration-str = "=0.21.0"
fnv_rs = "=0.4.4"
futures-util = { version = "=0.3.34", features = ["sink"] }
reqwest = { version = "=0.13.5", default-features = false, features = ["json"] }
serde = { version = "=1.0.229", features = ["derive"] }
serde_json = "=1.0.151"
serde_yaml = "=0.9.34"
tokio = { version = "=1.53.2", features = ["rt-multi-thread", "macros", "time", "sync", "signal", "net"] }
tokio-util = "=0.7.19"
tokio-websockets = { version = "=0.13.3", features = ["client", "rand", "sha1_smol"] }
zstd = "=0.14.0"
