[package]
name = "live_chat"
version = "0.1.0"
edition = "2021"
publish = false

[dependencies]
tokio = { version = "=1.54.1", features = ["io-util", "macros", "net", "rt-multi-thread", "sync"] }
tokio-rustls = "=0.26.6"
wtx = { version = "=0.46.1", features = ["http-server-framework", "http2", "std", "tokio", "tokio-rustls", "web-socket"] }
