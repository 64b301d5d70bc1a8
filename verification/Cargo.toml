[package]
name = "booktrans"
version = "0.1.0"
edition = "2021"
publish = false

[dependencies]
clap = { version = "4", features = ["derive"] }
epub = "2"
html5ever = "0.26"
markup5ever_rcdom = "0.2"
ollama-rs = "0.2"
tokio = { version = "1", features = ["rt", "macros", "time", "fs", "io-util"] }
