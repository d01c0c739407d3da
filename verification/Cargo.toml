[package]
name = "tesla_auth"
version = "0.1.0"
edition = "2021"
publish = false

[dependencies]
oauth2 = { version = "4", default-features = false }
serde_json = "1"
log = "0.4"
simple_logger = "*"
