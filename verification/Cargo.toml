[package]
name = "transformfs"
version = "0.1.0"
edition = "2021"
publish = false

[dependencies]
anyhow = "=1.0.104"
clap = { version = "=4.6.7", features = ["derive"] }
daemonize = "=0.5.0"
env_logger = "=0.11.11"
fuser = "=0.18.0"
log = "=0.4.34"
mlua = { version = "=0.12.2", features = ["lua54", "vendored", "send"] }
nix = { version = "=0.31.3", features = ["user"] }
walkdir = "=2.5.0"
