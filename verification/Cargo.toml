[package]
name = "datafusion-ext-functions"
version = "0.1.0"
edition = "2021"
publish = false

[dependencies]
datafusion = { version = "*", default-features = false }
