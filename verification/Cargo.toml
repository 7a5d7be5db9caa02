[package]
name = "inline_cli"
version = "0.1.0"
edition = "2021"
publish = false

[dependencies]
unicode-width = "*"
semver = "*"
serde = { version = "*", features = ["derive"] }
serde_json = "*"
chrono = "*"
url = "*"
futures-util = "*"
tokio = { version = "*", features = ["rt-multi-thread", "macros", "net", "time"] }
tokio-tungstenite = "*"
rand = "*"
