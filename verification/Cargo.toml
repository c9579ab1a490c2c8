[package]
name = "whalescale"
version = "0.1.0"
edition = "2021"
publish = false

[dependencies]
rand = "0.8"
base64 = "0.22"
boringtun = "0.6"
sha2 = "0.10"
hex = "0.4"
ipnet = { version = "2", features = ["serde"] }
argon2 = "0.5"
jsonwebtoken = "9"
serde = { version = "1", features = ["derive"] }
serde_json = "1"
chrono = { version = "0.4", features = ["serde"] }
uuid = { version = "1", features = ["v4", "serde"] }
anyhow = "1"
tokio = { version = "1", features = ["full"] }
axum = { version = "0.7", features = ["ws"] }
futures = "0.3"
tokio-tungstenite = "0.21"
tower-http = { version = "0.5", features = ["cors", "trace"] }
tracing = "0.1"
tracing-subscriber = { version = "0.3", features = ["env-filter"] }
dotenvy = "0.15"
reqwest = { version = "0.12", default-features = false, features = ["json"] }
sqlx = { version = "0.8", default-features = false, features = ["runtime-tokio", "postgres", "uuid", "chrono", "ipnetwork", "json", "macros", "migrate"] }
