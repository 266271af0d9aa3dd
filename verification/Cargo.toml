[package]
name = "equicloud"
version = "0.1.0"
edition = "2021"
publish = false

[dependencies]
ahash = "0.8"
anyhow = "1"
axum = "0.8"
base64 = "0.22"
chrono = "0.4"
dotenv = "0.15"
futures = "0.3"
governor = "0.10"
hex = "0.4"
http = "1"
include_dir = "0.7"
itoa = "1"
mimalloc = { version = "0.1", default-features = false }
moka = { version = "0.12", features = ["future"] }
once_cell = "1"
rand = "0.9"
reqwest = { version = "0.12", default-features = false, features = ["json", "rustls-tls"] }
scylla = "1"
serde = { version = "1", features = ["derive"] }
serde_json = "1"
sha2 = "0.10"
tokio = { version = "1", features = ["full"] }
tower-http = { version = "0.6", features = ["cors", "limit", "set-header"] }
tower_governor = "0.8"
tracing = "0.1"
tracing-subscriber = { version = "0.3", features = ["env-filter"] }
zstd = "0.13"
