[package]
name = "penguin"
version = "0.1.0"
edition = "2021"
publish = false

[dependencies]
hyper = { version = "0.14", features = ["http1", "server", "client", "tcp", "stream"] }
hyper-tls = "0.5"
hyper-tungstenite = "0.9"
tokio = { version = "1", features = ["rt", "macros", "net", "time", "sync", "fs", "io-util"] }
tokio-util = { version = "0.7", features = ["codec"] }
futures = "0.3"
flate2 = "1"
brotli = "3"
infer = "0.15"
http-range = "0.1"
mime_guess = "2"
