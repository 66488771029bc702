[package]
name = "moreutils"
version = "0.1.0"
edition = "2021"
publish = false

[dependencies]
chrono = "0.4"
regex = "1"
libc = "0.2"
nix = { version = "0.30", features = ["fs", "net", "socket", "ioctl", "signal"] }
tempfile = "3"
signal-hook = "0.3"
