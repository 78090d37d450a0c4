[package]
name = "serve"
version = "1.0.0"
edition = "2021"
publish = false

[dependencies]
bytes = "1"
chrono = "0.4"
colored = "2"
dirs = "5"
futures-util = "0.3"
http-body-util = "0.1"
hyper = { version = "1", features = ["server", "http1"] }
hyper-util = { version = "0.1", features = ["tokio"] }
mime_guess = "2"
percent-encoding = "2"
rcgen = "0.13"
rustls = { version = "0.23", default-features = false, features = ["ring", "std", "tls12", "logging"] }
rustls-pemfile = "2"
tokio = { version = "1", features = ["full"] }
tokio-rustls = { version = "0.26", default-features = false, features = ["ring", "tls12", "logging"] }
tokio-util = { version = "0.7", features = ["io"] }
