[package]
name = "async_book"
version = "0.1.0"
edition = "2021"
publish = false

[dependencies]
futures = { version = "0.3", features = ["thread-pool"] }
tokio = { version = "0.2", features = ["full"] }
