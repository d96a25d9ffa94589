[package]
name = "bread_scan"
version = "0.1.0"
edition = "2021"
publish = false

[dependencies]
url = "=2.5.8"
scraper = "=0.27.0"
cacache = { version = "=13.1.0", default-features = false, features = ["mmap", "tokio-runtime"] }
governor = "=0.10.4"
serde_json = "=1.0.151"
serde = { version = "=1.0.229", features = ["derive"] }
serde_yaml = "=0.9.34"
toml = "*"
cargo-manifest = "=0.21.0"
reqwest = { version = "=0.12.28", default-features = false, features = ["rustls-tls", "json"] }
tokio = { version = "=1.53.2", features = ["rt", "macros", "process", "time"] }
clap = { version = "=4.6.7", features = ["derive"] }
anyhow = "*"
path-absolutize = "*"
platform-dirs = "*"
sxd-document = "*"
sxd-xpath = "*"
tempfile = "*"
