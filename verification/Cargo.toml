[package]
name = "cache_aside"
version = "0.1.0"
edition = "2021"
publish = false

[dependencies]
actix-web = "4"
actix-cors = "*"
argon2 = "*"
deadpool-lapin = "*"
dotenv = "*"
env_logger = "*"
lapin = "*"
r2d2_redis = "*"
serde = { version = "1", features = ["derive"] }
serde_json = "1"
sqlx = { version = "*", features = ["postgres", "runtime-tokio"], default-features = false }
uuid = { version = "*", features = ["v4", "serde"] }
validator = { version = "*", features = ["derive"] }
