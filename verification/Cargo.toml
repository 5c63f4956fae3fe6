[package]
name = "ankicollab"
version = "0.1.0"
edition = "2021"
publish = false

[dependencies]
ammonia = "4"
async-recursion = "1"
aws-sdk-s3 = { version = "1", default-features = false, features = ["rt-tokio", "behavior-version-latest"] }
axum = "0.7"
axum-client-ip = "0.6"
base64 = "0.22"
bb8-postgres = "0.8"
bytes = "1"
chrono = { version = "0.4", features = ["serde"] }
flate2 = "1"
futures = "0.3"
hex = "0.4"
lazy_static = "1"
md-5 = "0.10"
once_cell = "1"
rand = "0.9"
rayon = "1"
regex = "1"
rust-argon2 = "2"
sentry = { version = "0.34", default-features = false }
serde = { version = "1", features = ["derive"] }
serde_json = "1"
sha2 = "0.10"
svg-hush = "0.9"
tokio = { version = "1", features = ["full"] }
tokio-postgres = { version = "0.7", features = ["with-chrono-0_4", "with-serde_json-1", "with-uuid-1"] }
tower-http = { version = "0.6", features = ["trace"] }
tracing-subscriber = { version = "0.3", features = ["env-filter"] }
uuid = { version = "1", features = ["v4"] }
