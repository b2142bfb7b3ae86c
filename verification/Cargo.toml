[package]
name = "dsh-desktop"
version = "0.1.13"
edition = "2021"
publish = false

[dependencies]
base64 = "0.22"
futures-util = "0.3"
libc = "0.2"
minisign-verify = "0.2"
objc2 = "0.6"
objc2-app-kit = "0.3"
objc2-foundation = "0.3"
png = "0.17"
reqwest = { version = "0.12", default-features = false, features = ["stream", "rustls-tls"] }
tokio = { version = "1", features = ["rt", "time", "net"] }
