[package]
name = "webdav_wasi"
version = "0.1.0"
edition = "2021"
publish = false

[dependencies]
anyhow = "=1.0.104"
tokio = { version = "=1.54.1", features = ["rt", "net", "io-util", "time", "macros"] }
dav-server = "*"
wstd = "*"
http = "*"
http-body-util = "*"
