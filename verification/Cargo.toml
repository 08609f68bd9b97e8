[package]
name = "http"
version = "0.1.0"
edition = "2021"
publish = false

[dependencies]
base64 = "*"
bytes = "*"
chrono = "*"
sha1 = "*"
tokio = { version = "*", features = ["net", "io-util", "time", "macros", "rt-multi-thread", "fs"] }
tracing = "*"
tracing-subscriber = { version = "*", features = ["env-filter"] }
