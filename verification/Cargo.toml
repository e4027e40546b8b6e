[package]
name = "monitor_system_ops"
version = "0.1.0"
edition = "2021"
publish = false

[dependencies]
anyhow = "*"
base64 = "=0.22.1"
chrono = "=0.4.45"
clap = { version = "4", features = ["derive"] }
env_logger = "*"
serde = { version = "1", features = ["derive"] }
serde_json = "1"
tokio = { version = "1", features = ["rt-multi-thread", "macros", "time", "sync"] }
toml = "*"
warp = { version = "=0.4.3", features = ["server"] }
