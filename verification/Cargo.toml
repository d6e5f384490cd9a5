[package]
name = "adb-client"
version = "0.1.0"
edition = "2021"
publish = false

[dependencies]
futures = "0.3"
pretty-hex = "0.4"
thiserror = "1"
tokio = { version = "1", features = ["net", "io-util", "rt", "macros"] }
tokio-stream = "0.1"
tokio-util = { version = "0.7", features = ["codec"] }
