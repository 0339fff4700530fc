[package]
name = "podpilot"
version = "0.1.0"
edition = "2021"
publish = false

[dependencies]
uuid = { version = "*", features = ["v4"] }
chrono = "*"
tokio = { version = "*", features = ["rt-multi-thread", "macros", "net", "sync", "time", "signal"] }
tokio-tungstenite = "*"
futures-util = "*"
hostname = "*"
dotenvy = "*"
clap = { version = "*", features = ["derive"] }
