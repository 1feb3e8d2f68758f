[package]
name = "awl"
version = "0.1.0"
edition = "2021"
publish = false

[dependencies]
aws-config = { version = "=1.13.0", default-features = false, features = ["default-https-client", "rt-tokio", "credentials-process", "sso"] }
aws-credential-types = "=1.3.1"
aws-sdk-cloudwatchlogs = { version = "=1.162.0", default-features = false, features = ["default-https-client", "rt-tokio"] }
aws-sdk-dynamodb = { version = "=1.136.0", default-features = false, features = ["default-https-client", "rt-tokio"] }
aws-sdk-ecr = { version = "=1.138.0", default-features = false, features = ["default-https-client", "rt-tokio"] }
aws-sdk-kms = { version = "=1.129.0", default-features = false, features = ["default-https-client", "rt-tokio"] }
aws-sdk-lambda = { version = "=1.156.0", default-features = false, features = ["default-https-client", "rt-tokio"] }
aws-sdk-route53 = { version = "=1.132.0", default-features = false, features = ["default-https-client", "rt-tokio"] }
aws-sdk-s3 = { version = "=1.157.0", default-features = false, features = ["default-https-client", "rt-tokio", "sigv4a", "http-1x"] }
aws-sdk-secretsmanager = { version = "=1.125.0", default-features = false, features = ["default-https-client", "rt-tokio"] }
aws-sdk-sqs = { version = "=1.119.0", default-features = false, features = ["default-https-client", "rt-tokio"] }
aws-sdk-ssm = { version = "=1.133.0", default-features = false, features = ["default-https-client", "rt-tokio"] }
aws-sdk-sts = { version = "=1.124.0", default-features = false, features = ["default-https-client", "rt-tokio"] }
aws-smithy-types = "=1.9.1"
aws-types = "=1.7.0"
base64 = "=0.23.1"
chrono = "=0.4.45"
clap = { version = "=4.6.7", features = ["derive", "env"] }
clap_complete = "=4.6.11"
globset = "=0.4.21"
serde = { version = "=1.0.229", features = ["derive"] }
serde_json = "=1.0.154"
serde_yaml = "=0.9.34+deprecated"
thiserror = "=2.0.21"
tokio = { version = "=1.54.1", features = ["fs", "io-std", "io-util", "macros", "rt-multi-thread"] }
toml = "=0.9.12+spec-1.1.0"
tracing-subscriber = { version = "=0.3.23", features = ["env-filter"] }
urlencoding = "=2.1.3"
walkdir = "=2.5.0"
