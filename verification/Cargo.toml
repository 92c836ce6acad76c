[package]
name = "core_flow"
version = "0.1.0"
edition = "2021"
publish = false

[dependencies]
serde_json = "=1.0.151"
uuid = { version = "=1.27.0", features = ["v4"] }
chrono = "=0.4.45"
serde = { version = "=1.0.229", features = ["derive"] }
tokio = { version = "=1.53.2", features = ["full"] }
axum = "=0.8.9"
mongodb = "=3.9.1"
bson = "=3.1.0"
reqwest = { version = "=0.13.5", features = ["json"] }
rig-core = { version = "=0.44.0", features = ["reqwest"] }
async-trait = "=0.1.92"
