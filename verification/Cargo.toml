[package]
name = "failure_proxy"
version = "0.1.0"
edition = "2021"
publish = false

[dependencies]
rand = "*"
regex = "*"
tokio = { version = "*", features = ["full"] }
hyper = { version = "*", features = ["server", "http1"] }
hyper-util = { version = "*", features = ["tokio"] }
http-body-util = "*"
bytes = "*"
reqwest = { version = "*", default-features = false }
aws-config = { version = "*", features = ["behavior-version-latest"] }
aws-sdk-ssm = "*"
tracing = "*"
tracing-subscriber = { version = "*", features = ["fmt", "json"] }
