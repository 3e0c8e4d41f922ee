[package]
name = "http_router"
version = "0.1.0"
edition = "2021"
publish = false

[dependencies]
percent-encoding = "*"
toml = "*"
serde = { version = "*", features = ["derive"] }
serde_json = "*"
http = "*"
chrono = "*"
camino = "*"
semver = "*"
hyper = { version = "*", features = ["client", "http1"] }
hyper-util = { version = "*", features = ["client-legacy", "http1", "tokio"] }
http-body-util = "*"
tokio = { version = "*", features = ["rt"] }
serde_urlencoded = "*"
