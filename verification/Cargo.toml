[package]
name = "rinse"
version = "0.1.0"
edition = "2021"
publish = false

[dependencies]
anyhow = "1"
argon2 = "=0.5.3"
axum = { version = "0.7", features = ["multipart", "ws"] }
axum-extra = { version = "0.9", features = ["typed-header"] }
bytes = "=1.12.1"
chrono = { version = "0.4", features = ["serde"] }
dotenvy = "0.15"
flate2 = "=1.1.10"
futures-util = { version = "0.3", features = ["sink"] }
image = { version = "=0.25.10", default-features = false, features = ["gif", "jpeg", "png", "webp"] }
jsonwebtoken = "9"
lru = "0.12"
md5 = "=0.7.0"
mime_guess = "=2.0.5"
rand = "=0.8.8"
serde = { version = "1", features = ["derive"] }
serde_json = "=1.0.154"
sqlx = { version = "0.7", default-features = false, features = ["runtime-tokio", "sqlite", "chrono", "macros", "migrate"] }
tokio = { version = "1", features = ["full"] }
tokio-util = { version = "0.7", features = ["codec", "io"] }
tower-http = { version = "0.5", features = ["cors"] }
tracing = "0.1"
tracing-subscriber = { version = "0.3", features = ["env-filter"] }
uuid = { version = "=1.29.0", features = ["v4"] }
zip = { version = "0.6", default-features = false, features = ["deflate"] }
