[package]
name = "ratpack"
version = "0.1.0"
edition = "2021"
publish = false

[dependencies]
http = "0.2"
hyper = { version = "0.14", features = ["http1", "server", "runtime"] }
tokio = { version = "1", features = ["full"] }
tokio-rustls = "0.24"
