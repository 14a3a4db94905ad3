[package]
name = "swhkd"
version = "0.1.0"
edition = "2021"
publish = false

[dependencies]
itertools = "*"
evdev = "*"
nix = { version = "*", features = ["user", "signal", "fs", "process"] }
clap = { version = "*", features = ["derive"] }
log = "*"
env_logger = "*"
signal-hook = "*"
signal-hook-tokio = { version = "*", features = ["futures-v0_3"] }
sysinfo = "*"
tokio = { version = "*", features = ["full"] }
tokio-stream = "*"
tokio-udev = "*"
