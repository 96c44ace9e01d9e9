[package]
name = "fly_common"
version = "0.1.0"
edition = "2021"
publish = false

[dependencies]
axum = { version = "=0.7.9", features = ["ws"] }
chrono = "=0.4.45"
csv = "=1.4.0"
futures-util = { version = "=0.3.34", features = ["sink"] }
reqwest = { version = "=0.12.28", default-features = false }
rusqlite = { version = "=0.31.0", features = ["bundled"] }
scraper = "=0.19.1"
serde = { version = "=1.0.229", features = ["derive"] }
serde_json = "=1.0.154"
tokio = { version = "=1.54.1", features = ["full"] }
tokio-stream = { version = "=0.1.19", features = ["sync"] }
tower-http = { version = "=0.5.2", features = ["cors", "fs"] }
tracing = "=0.1.44"
url = "=2.5.8"
uuid = { version = "=1.29.0", features = ["v4"] }
