[package]
name = "katcp_relay"
version = "0.1.0"
edition = "2021"
publish = false

[dependencies]
base64 = "0.13"
clap = { version = "4", features = ["derive"] }
tokio = { version = "1", features = ["rt-multi-thread", "net", "io-util", "macros"] }
