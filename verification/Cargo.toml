[package]
name = "dvdromcopy"
version = "0.1.0"
edition = "2021"
publish = false

[dependencies]
lru = "*"
clap = { version = "*", features = ["derive"] }
env_logger = "*"
log = "*"
