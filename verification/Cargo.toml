[package]
name = "garam"
version = "0.1.0"
edition = "2021"
publish = false

[dependencies]
tokio = { version = "1", features = ["full"] }
tokio-util = { version = "0.7", features = ["codec"] }
futures = "0.3"
serde = { version = "1", features = ["derive"] }
serde_json = "1"
clap = { version = "4", features = ["derive"] }
clap_complete = "4"
axum = "0.7"
hyper-util = { version = "0.1", features = ["server-auto", "tokio", "service"] }
nix = { version = "0.29", features = ["user", "fs"] }
log = "0.4"
env_logger = "0.11"
lazy_static = "1"
scopeguard = "1"
toml = "0.8"
uuid = { version = "1", features = ["v4"] }
