[package]
name = "sms"
version = "0.1.0"
edition = "2021"
publish = false

[dependencies]
base64 = "=0.13.1"
chrono = "=0.4.45"
ring = "=0.17.14"
reqwest = { version = "=0.11.27", default-features = false, features = ["json"] }

[dev-dependencies]
serde_json = "=1.0.151"
urlencoding = "=2.1.3"
