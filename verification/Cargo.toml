[package]
name = "browser_control"
version = "0.1.0"
edition = "2021"
publish = false

[dependencies]
anyhow = "1"
base64 = "0.22"
regex = "1"
serde_json = "1"
tempfile = "3"
tokio = { version = "1", features = ["io-util", "macros", "process", "rt"] }
url = "2"
which = "7"
