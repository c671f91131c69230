[package]
name = "ci_transfer"
version = "0.1.0"
edition = "2021"
publish = false

[dependencies]
base64 = "*"
encoding_rs = "*"
md5 = "*"
serde = { version = "*", features = ["derive"] }
serde_json = "*"
clap = { version = "*", features = ["derive"] }
zip = "*"
ssh2 = "*"
aliyun-oss-rust-sdk = "*"
