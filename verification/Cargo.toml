[package]
name = "fog_manager"
version = "0.1.0"
edition = "2021"
publish = false

[dependencies]
anyhow = "=1.0.104"
base64 = "=0.13.1"
chrono = { version = "=0.4.45", default-features = false, features = ["clock", "std", "serde"] }
env_logger = "=0.11.11"
k8s-openapi = { version = "=0.27.1", features = ["latest"] }
kube = { version = "=3.1.0", default-features = false, features = ["client"] }
log = "=0.4.34"
reqwest = { version = "=0.12.28", default-features = false, features = ["json"] }
rocket = { version = "=0.5.2", features = ["json"] }
ron = "=0.8.1"
serde = { version = "=1.0.229", features = ["derive"] }
serde_json = "=1.0.154"
thiserror = "=1.0.69"
tokio = { version = "=1.54.1", features = ["rt-multi-thread", "macros", "time", "sync"] }
uuid = { version = "=1.29.0", features = ["v4", "serde"] }
