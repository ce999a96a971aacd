[package]
name = "devscan"
version = "0.1.0"
edition = "2021"
publish = false

[dependencies]
anyhow = "*"
async-ssh2-tokio = "*"
network-interface = "*"
pinger = "*"
russh = "*"
tokio = { version = "*", features = ["full"] }
