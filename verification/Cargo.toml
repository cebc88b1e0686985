[package]
name = "terminal_hacking"
version = "0.1.0"
edition = "2021"
publish = false

[dependencies]
anyhow = "*"
rand = "*"
ratatui = "*"
