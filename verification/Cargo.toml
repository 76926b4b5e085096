[package]
name = "bioma_tool"
version = "0.1.0"
edition = "2021"
publish = false

[dependencies]
url = "*"
robotstxt = "*"
readability = "*"
html2md = "*"
tokio = { version = "*", features = ["rt-multi-thread", "io-std", "io-util", "net", "sync", "macros", "time"] }
tokio-tungstenite = "*"
futures = "*"
reqwest = { version = "*", default-features = false }
anyhow = "*"
clap = { version = "*", features = ["derive"] }
tracing = "*"
tracing-appender = "*"
tracing-subscriber = "*"
log = "*"
