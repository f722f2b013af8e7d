[package]
name = "ai-agent"
version = "0.1.0"
edition = "2021"
publish = false

[dependencies]
actix-files = "0.6"
actix-http = "3"
actix-session = { version = "0.10", features = ["cookie-session"] }
actix-web = "4"
async-stream = "0.3"
async-trait = "0.1"
axum = { version = "0.8", features = ["ws"] }
base64 = "0.21"
bincode = "1.3"
chrono = "0.4"
crossterm = { version = "0.28", features = ["event-stream"] }
dialoguer = "0.11"
dotenv = "0.15"
env_logger = "0.11"
futures-util = "0.3"
oauth2 = { version = "4.4", default-features = false, features = ["reqwest"] }
rand = "0.8"
ratatui = "0.29"
reqwest = { version = "0.12", default-features = false, features = ["json", "stream", "rustls-tls"] }
serde = { version = "1", features = ["derive"] }
serde_json = { version = "1", features = ["float_roundtrip"] }
sled = "0.34"
thiserror = "1"
tokio = { version = "1", features = ["full"] }
tokio-util = { version = "0.7", features = ["io"] }
tower-http = { version = "0.6", features = ["cors", "fs"] }
tracing = "0.1"
tracing-subscriber = { version = "0.3", features = ["env-filter", "json"] }
uuid = { version = "1", features = ["v4"] }
