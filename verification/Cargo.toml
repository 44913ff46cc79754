[package]
name = "download_manager"
version = "0.1.0"
edition = "2021"
publish = false

[dependencies]
url = "2"
tokio = { version = "1", default-features = false, features = ["rt", "sync", "macros"] }
reqwest = { version = "0.12", default-features = false, features = ["stream"] }
futures = "0.3"
