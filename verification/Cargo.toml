[package]
name = "gpuitop"
version = "0.1.0"
edition = "2021"
publish = false

[dependencies]
nucleo = "*"
procfs = "*"
users = "*"
libc = "*"
num_cpus = "*"
ron = "*"
serde = { version = "1", features = ["derive"] }
toml = "*"
anyhow = "1"
nvml-wrapper = "*"
x11rb = "*"
