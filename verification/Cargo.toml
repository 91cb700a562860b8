[package]
name = "ledger"
version = "0.1.0"
edition = "2021"
publish = false

[dependencies]
axum = "0.7"
bson = "2"
chrono = { version = "0.4", default-features = false, features = ["clock", "serde", "std"] }
dotenvy = "0.15"
futures-util = "0.3"
mongodb = "2"
redis = { version = "0.25", features = ["tokio-comp"] }
serde = { version = "1", features = ["derive"] }
serde_json = "1"
sqlx = { version = "0.7", default-features = false, features = ["runtime-tokio-rustls", "postgres", "chrono"] }
thiserror = "1"
tokio = { version = "1", features = ["full"] }
