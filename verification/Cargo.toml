[package]
name = "harvester"
version = "0.1.0"
edition = "2021"
publish = false

[dependencies]
async-compression = { version = "0.4", features = ["futures-io", "gzip"] }
aws-config = "1"
aws-sdk-sqs = "1"
chrono = "0.4"
futures = "0.3"
lambda_runtime = "*"
reqwest = { version = "0.12", default-features = false, features = ["json", "stream", "rustls-tls"] }
serde = { version = "1", features = ["derive"] }
serde_json = "1"
tokio = { version = "1", features = ["macros", "rt-multi-thread"] }
