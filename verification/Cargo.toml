[package]
name = "polytunnel"
version = "0.1.0"
edition = "2021"
publish = false

[dependencies]
quick-xml = "0.37"
urlencoding = "2"
reqwest = { version = "0.12", default-features = false, features = ["rustls-tls"] }
tokio = { version = "1", features = ["rt-multi-thread", "macros"] }
serde = { version = "1", features = ["derive"] }
serde_json = "1"
toml = "0.8"
thiserror = "1"
clap = { version = "4", features = ["derive"] }
colored = "2"
walkdir = "2"
