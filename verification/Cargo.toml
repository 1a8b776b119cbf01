[package]
name = "flylinks"
version = "0.1.0"
edition = "2021"
publish = false

[dependencies]
anyhow = "*"
axum = "*"
chrono = "*"
clap = { version = "*", features = ["derive"] }
dotenv = "*"
object_store = { version = "*", features = ["aws"] }
serde = { version = "*", features = ["derive"] }
serde_json = "*"
tokio = { version = "*", features = ["full"] }
tracing = "*"
tracing-subscriber = "*"
