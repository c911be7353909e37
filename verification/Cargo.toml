[package]
name = "flagforge"
version = "0.1.0"
edition = "2021"
publish = false

[dependencies]
regex = "=1.13.1"
semver = "=1.0.28"
sha2 = "=0.10.9"
hex = "=0.4.3"
rand = "=0.8.8"
serde = { version = "1", features = ["derive"] }
serde_json = { version = "1", features = ["preserve_order"] }
uuid = { version = "1", features = ["v4", "serde"] }
tokio = { version = "1", features = ["full"] }
axum = "=0.8.9"
sqlx = { version = "=0.8.6", default-features = false, features = ["runtime-tokio", "postgres", "uuid", "chrono", "json", "macros"] }
reqwest = { version = "=0.12.28", default-features = false, features = ["json"] }
jsonwebtoken = "9"
chrono = { version = "0.4", features = ["serde"] }
anyhow = "1"
async-stream = "0.3"
tokio-stream = "0.1"
redis = { version = "=0.27.6", default-features = false, features = ["tokio-comp", "connection-manager"] }
