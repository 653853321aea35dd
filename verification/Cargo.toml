[package]
name = "bluenotify"
version = "0.1.0"
edition = "2021"
publish = false

[dependencies]
chrono = "0.4"
serde = { version = "1", features = ["derive"] }
serde_json = "1"
thiserror = "2"
tokio = { version = "1", features = ["full"] }
axum = "0.8"
async-nats = "0.42"
diesel = { version = "2", default-features = false, features = ["postgres_backend", "chrono"] }
diesel-async = { version = "0.5", features = ["postgres", "deadpool"] }
futures = "0.3"
tokio-tungstenite = "*"
rand = "0.9"
url = "2"
tracing = "0.1"
tracing-subscriber = { version = "0.3", features = ["env-filter"] }
prometheus = "*"
lazy_static = "1"
reqwest = { version = "0.12", features = ["json"] }
yup-oauth2 = "*"

[dev-dependencies]
regex = "1"
