[package]
name = "extract"
version = "0.1.0"
edition = "2021"
publish = false

[dependencies]
axum = "0.8"
base64-simd = "0.8"
lopdf = "*"
rayon = "1"
serde = { version = "1", features = ["derive"] }
serde_json = "1"
tokio = { version = "1", features = ["full"] }
tracing = "0.1"
