[package]
name = "zfs_to_glacier"
version = "0.1.0"
edition = "2021"
publish = false

[dependencies]
async-channel = "=1.9.0"
base64 = "=0.13.1"
chrono = "=0.4.45"
clap = "=3.2.25"
env_logger = "=0.9.3"
futures = "=0.3.34"
indicatif = "0.17"
log = "=0.4.34"
md-5 = "=0.10.6"
num_cpus = "=1.17.0"
percent-encoding = "=2.3.2"
regex = "=1.13.1"
rusoto_core = "=0.47.0"
rusoto_s3 = "=0.47.0"
serde = { version = "=1.0.229", features = ["derive"] }
serde_yaml = "=0.8.26"
titlecase = "=3.6.0"
tokio = { version = "=1.54.1", features = ["full"] }
