[package]
name = "applet_executor"
version = "0.1.0"
edition = "2021"
publish = false

[dependencies]
serde_json = "1"
dirs = "*"
tokio = { version = "1", features = ["rt", "time"] }
