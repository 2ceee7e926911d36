[package]
name = "pwa_core"
version = "0.1.0"
edition = "2021"
publish = false

[dependencies]
ulid = "*"
fs_extra = "*"
log = "*"
simplelog = "*"
tempfile = "*"
reqwest = { version = "*", default-features = false, features = ["blocking", "rustls-tls"] }
