[package]
name = "house_price_predictor"
version = "0.1.0"
edition = "2021"
publish = false

[dependencies]
actix-web = { version = "4", default-features = false, features = ["macros"] }
aws-config = { version = "1", default-features = false, features = ["behavior-version-latest", "rt-tokio", "rustls"] }
aws-sdk-s3 = { version = "1", default-features = false, features = ["rt-tokio", "rustls"] }
clap = { version = "4", default-features = false, features = ["derive", "std", "help", "usage", "error-context"] }
env_logger = { version = "0.11", default-features = false }
log = "0.4"
polars = { version = "0.38", default-features = false, features = ["csv"] }
rand = "=0.8.8"
reqwest = { version = "0.12", default-features = false, features = ["blocking", "rustls-tls"] }
serde = { version = "1", features = ["derive"] }
serde_json = "1"
tokio = { version = "1", features = ["rt-multi-thread"] }
