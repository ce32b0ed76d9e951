[package]
name = "archivur"
version = "0.1.0"
edition = "2021"
publish = false

[dependencies]
zip = { version = "0.5.13", default-features = false, features = ["deflate", "time"] }
actix-web = { version = "4", default-features = false, features = ["macros"] }
aws-sdk-s3 = { version = "1", default-features = false, features = ["rt-tokio", "default-https-client"] }
tokio = { version = "1", features = ["rt", "sync"] }
serde = { version = "1", features = ["derive"] }
log = "0.4"
env_logger = "*"
