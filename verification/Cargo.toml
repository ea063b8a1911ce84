[package]
name = "flowsurface-server"
version = "0.1.0"
edition = "2021"
publish = false

[dependencies]
anyhow = "=1.0.104"
arrow = { version = "=60.1.0", default-features = false, features = ["ipc"] }
axum = "=0.8.9"
axum-server = { version = "=0.8.0", features = ["tls-rustls"] }
base64 = "=0.22.1"
clap = { version = "=4.6.7", features = ["derive"] }
dotenvy = "=0.15.7"
duckdb = { version = "=1.20000.1", default-features = false }
flowsurface-exchange = "=0.9.0"
futures = "=0.3.34"
getrandom = "=0.2.17"
hyper-util = { version = "=0.1.21", features = ["tokio"] }
parking_lot = "=0.12.5"
rcgen = "=0.14.10"
reqwest = { version = "=0.12.28", default-features = false }
rustc-hash = "=2.1.3"
rustls = "=0.23.46"
serde = { version = "=1.0.229", features = ["derive"] }
serde_json = "=1.0.154"
sha2 = "=0.10.9"
tokio = { version = "=1.54.1", features = ["full"] }
tokio-util = "=0.7.20"
toml = "=1.1.8"
tower-service = "=0.3.3"
tracing = "=0.1.44"
tracing-subscriber = { version = "=0.3.23", features = ["env-filter"] }
