[package]
name = "ministore"
version = "0.1.0"
edition = "2021"
publish = false

[dependencies]
uuid = { version = "1", features = ["v4"] }
serde = { version = "1", features = ["derive"] }
thiserror = "2"
async-trait = "0.1"
axum = "0.8"
tokio = { version = "1", features = ["full"] }
