[package]
name = "rainbow_beacon"
version = "0.1.0"
edition = "2021"
publish = false

[dependencies]
async-executor = "1"
async-fs = "2"
async-io = "2"
async-lock = "3"
async-net = "2"
async-tungstenite = "=0.35.0"
chacha20poly1305 = "=0.10.1"
clap = { version = "4", features = ["derive"] }
crossterm = { version = "=0.29.0", features = ["event-stream"] }
dialoguer = "0.12"
dotenvy = "0.15"
flume = "0.12"
futures-util = { version = "0.3", features = ["sink"] }
genawaiter-try-stream = "=0.1.0"
object-rainbow = "=0.0.0-a.58"
ratatui = "=0.30.2"
sha2 = "=0.10.9"
