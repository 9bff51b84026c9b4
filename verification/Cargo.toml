[package]
name = "moxide"
version = "0.1.0"
edition = "2021"
publish = false

[dependencies]
clap = { version = "*", features = ["derive"] }
colored = "*"
dirs = "*"
serde = { version = "*", features = ["derive"] }
serde_yaml = "*"
tmux_interface = "*"
