[package]
name = "rbrowser"
version = "0.1.0"
edition = "2021"
publish = false

[dependencies]
dirs = "*"
encoding = "0.2"
flate2 = "1"
gtk4 = "*"
rustls = "0.20"
tracing = "0.1"
tracing-subscriber = { version = "0.3", features = ["env-filter"] }
webpki-roots = "0.22"
