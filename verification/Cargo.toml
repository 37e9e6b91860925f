[package]
name = "simple_sentry"
version = "0.1.0"
edition = "2021"
publish = false

[dependencies]
serde_json = "1"
serde = { version = "1", features = ["derive"] }
anyhow = "1"
tokio = { version = "1", features = ["rt-multi-thread", "macros", "signal", "net", "sync"] }
axum = "*"
axum-extra = { version = "*", features = ["json-lines"] }
sqlx = { version = "0.8", features = ["runtime-tokio", "sqlite"] }
futures-util = "0.3"
tower = "*"
tower-http = { version = "*", features = ["cors"] }
tracing = "0.1"
tracing-subscriber = "0.3"
