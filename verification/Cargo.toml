[package]
name = "sudo_prompt"
version = "0.1.0"
edition = "2021"
publish = false

[dependencies]
unicode-general-category = "*"
libc = "*"
log = "*"
env_logger = "*"
clap = { version = "*", features = ["derive"] }
gtk4 = "*"
gtk4-layer-shell = "*"
gtk4-session-lock = "*"
