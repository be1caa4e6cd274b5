[package]
name = "update_delivery_system"
version = "26.7.1"
edition = "2021"
publish = false

[dependencies]
semver = "1"
url = "2"
sha2 = "0.10"
hex = "0.4"
uuid = { version = "1", features = ["v4", "serde"] }
serde = { version = "1", features = ["derive"] }
serde_json = "1"
toml = "0.8"
time = { version = "0.3", features = ["serde", "formatting", "parsing"] }
anyhow = "1"
thiserror = "2"
tracing = "0.1"
clap = { version = "4", features = ["derive"] }
crossterm = "0.28"
tokio = { version = "1", features = ["full"] }
reqwest = { version = "0.12", default-features = false, features = ["json", "multipart", "rustls-tls"] }
axum = "0.8"
axum-server = { version = "0.7", features = ["tls-rustls"] }
