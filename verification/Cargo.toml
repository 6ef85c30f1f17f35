[package]
name = "mongodb-utils"
version = "0.1.0"
edition = "2021"
publish = false

[dependencies]
actix-files = "=0.6.10"
actix-multipart = "=0.7.2"
actix-session = { version = "=0.10.1", features = ["cookie-session"] }
actix-web = "=4.18.1"
anyhow = "=1.0.104"
# Password hashing for the sign-in endpoints in app/ (argon2id, with a random salt).
argon2 = "=0.5.3"
chrono = { version = "=0.4.45", features = ["serde"] }
dotenvy = "=0.15.7"
futures-util = "=0.3.34"
mongodb = "=3.9.1"
serde = { version = "=1.0.229", features = ["derive"] }
serde_json = "=1.0.154"
tokio = { version = "=1.54.1", features = ["full"] }
tokio-stream = { version = "=0.1.19", features = ["sync"] }
tracing = "=0.1.44"
tracing-subscriber = { version = "=0.3.23", features = ["env-filter"] }
uuid = { version = "=1.29.0", features = ["v4", "serde"] }
