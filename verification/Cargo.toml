[package]
name = "kvstore"
version = "0.1.0"
edition = "2021"
publish = false

[dependencies]
tokio = { version = "1", features = ["macros", "rt"] }
warp = "0.3"
