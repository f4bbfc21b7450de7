[package]
name = "edge_compile"
version = "0.1.0"
edition = "2021"
publish = false

[dependencies]
bytes = "*"
futures = "*"
http-body-util = "*"
hyper = { version = "*", features = ["http1", "server"] }
hyper-util = { version = "*", features = ["tokio"] }
pretty_env_logger = "*"
tokio = { version = "*", features = ["full"] }
url = "*"
