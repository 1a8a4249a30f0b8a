[package]
name = "door_monitor"
version = "0.1.0"
edition = "2021"
publish = false

[dependencies]
chrono = "0.4"
rppal = "*"
rascam = "*"
aws-config = "*"
aws-sdk-s3 = "*"
tokio = { version = "1", features = ["rt"] }
