[package]
name = "callme"
version = "0.1.0"
edition = "2021"
publish = false

[dependencies]
anyhow = "=1.0.104"
bytes = "=1.12.1"
clap = { version = "=4.6.7", features = ["derive"] }
crossterm = "=0.29.0"
dialoguer = { version = "=0.12.0", default-features = false }
egui = { version = "=0.37.0", default-features = false }
env-libvpx-sys = "=5.1.3"
minifb = "=0.29.0"
nokhwa = { version = "=0.10.11", features = ["decoding"] }
tokio = { version = "=1.54.1", features = ["sync", "rt", "rt-multi-thread", "macros", "time", "signal"] }
tracing = "=0.1.44"
tracing-subscriber = "=0.3.23"
vpx-encode = "=0.6.2"
