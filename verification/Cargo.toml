[package]
name = "devtools_api_rust"
version = "0.1.0"
edition = "2021"
publish = false

[dependencies]
chrono = "*"
serde_json = "*"
serde = { version = "*", features = ["derive"] }
axum = "*"
tokio = { version = "*", features = ["full"] }
sqlx = { version = "*", features = ["runtime-tokio", "postgres"] }
reqwest = { version = "*", features = ["json"] }
tower-http = { version = "*", features = ["cors", "trace"] }
anyhow = "*"
clap = { version = "*", features = ["derive"] }
dotenvy = "*"
tracing = "*"
tracing-subscriber = { version = "*", features = ["env-filter", "fmt"] }
base64 = "*"
gcp-bigquery-client = "*"
