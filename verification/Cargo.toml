[package]
name = "roblox_rs"
version = "0.1.0"
edition = "2021"
publish = false

[dependencies]
walrus = "*"
clap = { version = "*", features = ["derive"] }
log = "*"
env_logger = "*"
syn = { version = "2", features = ["full"] }
quote = "*"
proc-macro2 = "*"
