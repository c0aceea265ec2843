[package]
name = "veldera"
version = "0.1.0"
edition = "2021"
publish = false

[dependencies]
async-channel = "=2.5.0"
clap = { version = "=4.6.7", features = ["derive"] }
glam = "=0.34.2"
reqwest = { version = "=0.12.28", default-features = false, features = ["blocking", "json"] }
serde = { version = "=1.0.229", features = ["derive"] }
serde_json = "=1.0.154"
tracing = "=0.1.44"
urlencoding = "=2.1.3"
