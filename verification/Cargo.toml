[package]
name = "bitwig_versions"
version = "0.1.0"
edition = "2021"
publish = false

[dependencies]
anyhow = "1"
axum = "0.7"
blake3 = "1"
chrono = "0.4"
rand = "0.8"
roxmltree = "0.20"
serde = { version = "1", features = ["derive"] }
serde_json = "1"
tempfile = "3"
thiserror = "1"
tokio = { version = "1", features = ["macros", "rt-multi-thread", "net", "sync"] }
walkdir = "2"
zip = { version = "2", default-features = false, features = ["deflate"] }
