[package]
name = "partwal"
version = "0.1.0"
edition = "2021"
publish = false

[dependencies]
base64 = "*"
md5 = "0.7"
glob = "0.3"
log = "0.4"
env_logger = "*"
clap = { version = "*", features = ["derive"] }
tokio = { version = "1", features = ["fs", "io-util", "rt", "macros", "rt-multi-thread"] }
rusoto_core = "0.48"
rusoto_s3 = "0.48"
