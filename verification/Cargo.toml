[package]
name = "s3kit"
version = "0.1.0"
edition = "2021"
publish = false

[dependencies]
aws-config = "1"
aws-sdk-s3 = "1"
chrono = "0.4"
clap = { version = "4", features = ["derive"] }
crc32fast = "1"
glob = "0.3"
md-5 = "0.10"
sha1 = "0.10"
sha2 = "0.10"
tokio = { version = "1", features = ["full"] }
walkdir = "2"
