[package]
name = "httpr"
version = "0.1.0"
edition = "2021"
publish = false

[dependencies]
serde_json = "1"
serde_cbor = "0.11"
encoding_rs = "0.8"
html2text = "0.12"
reqwest = { version = "0.12", default-features = false, features = ["cookies", "multipart", "stream", "rustls-tls"] }
tokio = { version = "1", features = ["rt", "macros", "time", "fs"] }
tokio-util = { version = "0.7", features = ["codec"] }
rustls-pemfile = "1"
futures = "0.3"
