[package]
name = "termy"
version = "0.1.0"
edition = "2021"
publish = false

[dependencies]
dirs = "6"
log = "0.4"
portable-pty = "*"
serde = { version = "1", features = ["derive"] }
serde_json = "1"
ssh2 = "0.9"
