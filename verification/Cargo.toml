[package]
name = "admission"
version = "0.1.0"
edition = "2021"
publish = false

[dependencies]
actix-web = "*"
actix-cors = "*"
chrono = "*"
deadpool-redis = "*"
dotenv = "*"
env_logger = "*"
parking_lot = "*"
rusqlite = { version = "*", features = ["bundled"] }
serde = { version = "*", features = ["derive"] }
serde_json = "*"
tokio = { version = "*", features = ["rt", "time", "macros"] }
uuid = { version = "*", features = ["v4"] }
