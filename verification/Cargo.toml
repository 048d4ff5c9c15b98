[package]
name = "whiteboarder"
version = "0.1.0"
edition = "2021"
publish = false

[dependencies]
serde_json = "1"
serde = { version = "1", features = ["derive"] }
axum = { version = "*", features = ["ws"] }
tokio = { version = "1", features = ["full"] }
futures = "0.3"
redis = { version = "*", features = ["tokio-comp"] }
uuid = { version = "1", features = ["v4"] }
dotenv = "0.15"
