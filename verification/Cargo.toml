[package]
name = "kv"
version = "0.1.0"
edition = "2021"
publish = false

[dependencies]
flate2 = "1"
anyhow = "1"
bytes = "1"
futures = "0.3"
rustls-pemfile = "1"
sled = "0.34"
snow = "*"
snowstorm = "0.4"
tokio = { version = "1", features = ["full"] }
tokio-rustls = "0.24"
tokio-stream = "0.1"
tokio-util = { version = "0.7", features = ["compat", "codec"] }
yamux = "*"
