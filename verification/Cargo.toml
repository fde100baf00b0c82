[package]
name = "rostfacto"
version = "0.1.0"
edition = "2021"
publish = false

[dependencies]
axum = "0.7"
htmlescape = "0.3"
serde = { version = "1", features = ["derive"] }
tokio = { version = "1", features = ["full"] }
tower-http = { version = "0.5", features = ["fs"] }
