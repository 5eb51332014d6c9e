[package]
name = "market_data"
version = "0.1.0"
edition = "2021"
publish = false

[dependencies]
async-trait = "0.1"
reqwest = { version = "0.12", default-features = false, features = ["json", "rustls-tls"] }
secrecy = "0.10"
serde = { version = "1", features = ["derive"] }
tokio = { version = "1", features = ["time"] }
tracing = "0.1"
