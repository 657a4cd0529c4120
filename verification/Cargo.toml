[package]
name = "lotus_news_service"
version = "0.1.0"
edition = "2021"
publish = false

[dependencies]
url = "*"
serde = { version = "*", features = ["derive"] }
serde_json = "*"
uuid = { version = "*", features = ["v4", "serde"] }
chrono = { version = "*", features = ["serde"] }
bcrypt = "*"
jsonwebtoken = "*"
validator = { version = "*", features = ["derive"] }
axum = { version = "*", features = ["ws"] }
tokio = { version = "*", features = ["rt-multi-thread", "macros", "sync", "net", "time"] }
sqlx = { version = "*", default-features = false, features = ["runtime-tokio", "postgres", "chrono", "uuid"] }
anyhow = "*"
dotenv = "*"
