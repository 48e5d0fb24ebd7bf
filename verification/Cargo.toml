[package]
name = "codecflow"
version = "0.1.0"
edition = "2021"
publish = false

[dependencies]
flate2 = { version = "=1.1.10", features = ["zlib-rs"] }
futures = "=0.3.34"
