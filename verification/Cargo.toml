[package]
name = "lwoss"
version = "0.1.0"
edition = "2021"
publish = false

[dependencies]
axum = "0.6"
axum-extra = { version = "0.7", features = ["cookie"] }
base64 = "0.21"
clap = { version = "4", features = ["derive"] }
cookie = "0.17"
futures = "0.3"
http-range-header = "*"
httpdate = "1"
log = "0.4"
mime_guess = "2"
serde = { version = "1", features = ["derive"] }
simplelog = "0.12"
tempfile = "3"
tokio = { version = "1", features = ["full"] }
tokio-util = { version = "0.7", features = ["io"] }
toml = "*"
tower-http = { version = "0.4", features = ["cors"] }
xxhash-rust = { version = "0.8", features = ["xxh3"] }
