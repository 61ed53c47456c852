[package]
name = "online_history"
version = "0.1.0"
edition = "2021"
publish = false

[dependencies]
chrono = { version = "0.4", features = ["serde"] }
uuid = "1"
rocket = { version = "0.5", features = ["json", "uuid"] }
rocket_cors = "*"
rocket_db_pools = { version = "*", features = ["sqlx_sqlite"] }
