[package]
name = "taxi_complaints"
version = "0.1.0"
edition = "2021"
publish = false

[dependencies]
chrono = { version = "=0.4.45", default-features = false, features = ["clock", "std"] }
uuid = { version = "=1.29.0", features = ["v4"] }
actix-web = "=4.18.1"
actix-cors = "=0.7.2"
awc = "3"
env_logger = "=0.11.11"
log = "=0.4.34"
rusty-s3 = "*"
serde = { version = "=1.0.229", features = ["derive"] }
serde_json = "=1.0.154"
sqlx = { version = "=0.8.6", default-features = false, features = ["runtime-tokio", "postgres", "derive", "chrono"] }
tokio = { version = "=1.54.1", features = ["rt-multi-thread"] }
