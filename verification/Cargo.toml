[package]
name = "matrix_pipeline"
version = "0.1.0"
edition = "2021"
publish = false

[dependencies]
aws-config = "=0.54.1"
aws-sdk-s3 = "=0.24.0"
lambda_runtime = "=0.7.3"
log = "=0.4.34"
serde = { version = "=1.0.229", features = ["derive"] }
serde_json = "=1.0.154"
tokio = { version = "=1.54.1", features = ["macros", "rt-multi-thread"] }
tracing-subscriber = "=0.3.23"
