[package]
name = "termpaper"
version = "0.1.0"
edition = "2021"
publish = false

[dependencies]
anyhow = "=1.0.104"
clap = { version = "=4.6.7", features = ["derive"] }
crossterm = "=0.29.0"
font8x8 = "=0.3.1"
image = { version = "=0.25.10", default-features = false, features = ["png"] }
portable-pty = "=0.9.0"
rppal = "=0.22.1"
vt100 = "=0.16.2"
