[package]
name = "liro"
version = "0.1.0"
edition = "2021"
publish = false

[dependencies]
serenity = { version = "=0.10.10", default-features = false, features = ["builder", "client", "framework", "gateway", "http", "model", "standard_framework", "utils", "rustls_backend"] }
tokio = { version = "=1.54.1", features = ["rt", "sync", "time"] }
