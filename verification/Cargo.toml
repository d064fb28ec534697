[package]
name = "npm_resolver"
version = "0.1.0"
edition = "2021"
publish = false

[dependencies]
bytes = "=1.12.1"
http = "=1.5.0"
http-body-util = "=0.1.5"
hyper = { version = "=1.12.0", features = ["server", "http1", "http2"] }
hyper-util = { version = "=0.1.21", features = ["tokio"] }
log = "=0.4.34"
rustls-webpki = "=0.102.8"
serde_json = { version = "=1.0.154", features = ["preserve_order"] }
tokio = { version = "=1.54.1", features = ["fs", "io-std", "io-util", "macros", "net", "rt"] }
tokio-rustls = "=0.26.6"
tokio-util = { version = "=0.7.20", features = ["compat"] }
