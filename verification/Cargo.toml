[package]
name = "ovpnd"
version = "0.1.0"
edition = "2021"
publish = false

[dependencies]
anyhow = "*"
chrono = { version = "*", features = ["serde"] }
clap = { version = "*", features = ["derive"] }
log = "*"
nix = { version = "*", features = ["signal"] }
serde = { version = "*", features = ["derive"] }
serde_json = "*"
simple_logger = "*"
tokio = { version = "*", features = ["full"] }
uuid = { version = "*", features = ["v4"] }
