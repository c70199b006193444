[package]
name = "loc"
version = "0.1.0"
edition = "2021"
publish = false

[dependencies]
axum = "0.7"
flate2 = "1"
futures-util = "0.3"
regex = "1"
reqwest = { version = "0.12", default-features = false, features = ["json"] }
serde = { version = "1", features = ["derive"] }
serde_json = "1"
tar = "0.4"
tokio = { version = "1", features = ["full"] }
tower-http = { version = "0.5", features = ["trace"] }
tracing = "0.1"
tracing-subscriber = { version = "0.3", features = ["env-filter"] }
