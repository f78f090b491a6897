[package]
name = "ddcollector"
version = "0.1.0"
edition = "2021"
publish = false

[dependencies]
hyper = { version = "0.14", features = ["server", "client", "http1", "tcp"] }
tokio = { version = "1", features = ["rt-multi-thread", "net", "sync", "macros"] }

[dev-dependencies]
rmp = "0.8"
