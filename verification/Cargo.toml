[package]
name = "udp_broadcast_relay"
version = "0.1.0"
edition = "2021"
publish = false

[dependencies]
anyhow = "1"
clap = { version = "4", features = ["derive"] }
env_logger = "0.11"
libc = "0.2"
log = "0.4"
nix = { version = "0.29", features = ["ioctl"] }
socket2 = { version = "0.5", features = ["all"] }
