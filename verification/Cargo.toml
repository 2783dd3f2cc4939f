[package]
name = "limusic"
version = "0.1.0"
edition = "2021"
publish = false

[dependencies]
regex = "=1.13.1"
serde = { version = "=1.0.229", features = ["derive"] }
serde_json = "=1.0.154"
base64 = "=0.22.1"
sha2 = "=0.10.9"
urlencoding = "=2.1.3"
reqwest = { version = "=0.12.28", default-features = false, features = ["json"] }
tokio = { version = "=1.54.1", features = ["rt", "time", "sync"] }
futures-util = "=0.3.34"
tracing = "=0.1.44"
libmpv2 = "*"
libc = "0.2"
