[package]
name = "blackbox_exporter"
version = "0.1.0"
edition = "2021"
publish = false

[dependencies]
http = "*"
serde = { version = "*", features = ["derive"] }
toml = "*"

[dev-dependencies]
percent-encoding = "*"
