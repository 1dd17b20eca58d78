[package]
name = "term_sessions"
version = "0.1.0"
edition = "2021"
publish = false

[dependencies]
portable-pty = "*"
ssh2 = "*"
dirs = "*"
serde = { version = "*", features = ["derive"] }
