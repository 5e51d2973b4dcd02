[package]
name = "nitro_enc_svc"
version = "0.1.0"
edition = "2021"
publish = false

[dependencies]
aes-gcm-siv = "*"
base64 = "*"
anyhow = "*"
arc-swap = "*"
aws-config = "*"
aws-sdk-kms = "*"
aws-sdk-s3 = "*"
aws-sdk-secretsmanager = "*"
aws-smithy-runtime-api = "*"
aws-smithy-types = "*"
axum = "*"
hyper = "*"
hyper-rustls = "*"
hyper-util = "*"
openapiv3 = "*"
rustls = "*"
rustls-pemfile = "*"
serde = { version = "*", features = ["derive"] }
serde_json = "*"
serde_yaml = "*"
tokio = { version = "*", features = ["full"] }
tokio-rustls = "*"
tokio-vsock = "*"
tower = "*"
tower-http = { version = "*", features = ["compression-gzip", "timeout", "trace"] }
tracing = "*"
tracing-subscriber = { version = "*", features = ["env-filter", "json"] }
