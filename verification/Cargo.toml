[package]
name = "gateway_core"
version = "0.1.0"
edition = "2021"
publish = false

[dependencies]
eetf = "0.8"
flate2 = "1"
bounded-vec-deque = "*"
regex = "1"
tokio = { version = "1", features = ["full"] }
tokio-tungstenite = { version = "0.17", features = ["rustls-tls-webpki-roots"] }
futures-util = "0.3"
hyper = { version = "0.14", features = ["client", "http1", "http2", "tcp"] }
hyper-rustls = { version = "0.22", features = ["webpki-tokio"] }
http = "0.2"
json = "0.12"
