[package]
name = "ssh-agent-filter"
version = "0.1.0"
edition = "2021"
publish = false

[dependencies]
base64 = "0.22"
clap = { version = "4", features = ["derive"] }
hex = "0.4"
md5 = "0.7"
tokio = { version = "1", features = ["full"] }
