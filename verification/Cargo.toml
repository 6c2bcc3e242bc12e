[package]
name = "vshell"
version = "0.1.0"
edition = "2021"
publish = false

[dependencies]
libc = "0.2"
tokio = { version = "1", features = ["fs", "io-std", "io-util", "rt-multi-thread", "macros"] }
chrono = "0.4"
chrono-tz = "*"
iana-time-zone = "*"
dirs = "*"
users = "*"
