[package]
name = "tl_registry"
version = "0.1.0"
edition = "2021"
publish = false

[dependencies]
uuid = { version = "=1.27.0", features = ["v4"] }
serde = { version = "1", features = ["derive"] }
serde_json = "1"
chrono = { version = "0.4", features = ["serde"] }
tokio = { version = "1", features = ["full"] }
axum = "0.8"
axum-valid = { version = "*", default-features = false, features = ["validify", "basic"] }
validify = "*"
sqlx = { version = "0.8", features = ["runtime-tokio", "postgres", "chrono"] }
meilisearch-sdk = "*"
reqwest = "*"
eyre = "0.6"
log = "0.4"
dotenv = "0.15"
tower-http = { version = "*", features = ["cors", "compression-gzip"] }
