[package]
name = "chat_core"
version = "0.1.0"
edition = "2021"
publish = false

[dependencies]
axum = "=0.8.9"
dotenvy = "=0.15.7"
futures = "=0.3.34"
serde = { version = "=1.0.229", features = ["derive"] }
serde_json = "=1.0.151"
supabase-client-rs = { version = "=0.1.0", features = ["realtime"] }
tokio = { version = "=1.53.2", features = ["full"] }
tokio-postgres = "=0.7.18"
tower-http = { version = "=0.6.11", features = ["trace"] }
tracing = "=0.1.44"
tracing-subscriber = { version = "=0.3.23", features = ["env-filter"] }
