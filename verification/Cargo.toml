[package]
name = "rsbpm"
version = "0.1.0"
edition = "2021"
publish = false

[dependencies]
anyhow = "=1.0.104"
axum = { version = "=0.7.9", features = ["multipart"] }
reqwest = { version = "=0.12.28", default-features = false, features = ["json", "multipart", "rustls-tls"] }
serde = { version = "=1.0.229", features = ["derive"] }
serde_json = "=1.0.154"
tiny-skia = "=0.12.0"
tokio = { version = "=1.54.1", features = ["macros", "rt-multi-thread", "net", "process"] }
toml = "=0.8.23"
tower-http = { version = "=0.5.2", features = ["cors"] }
