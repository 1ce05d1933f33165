[package]
name = "ise"
version = "0.1.0"
edition = "2021"
publish = false

[dependencies]
aws-config = "1"
aws-sdk-s3 = "1"
clap = { version = "4", features = ["derive"] }
dirs = "*"
dotenv = "0.15"
serde = { version = "1", features = ["derive"] }
serde_json = "1"
tokio = { version = "1", features = ["full"] }
widestring = "1"
winfsp = "*"
winfsp-sys = "*"
