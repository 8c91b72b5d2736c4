[package]
name = "lazyactions"
version = "0.1.0"
edition = "2021"
publish = false

[dependencies]
clap = { version = "*", features = ["derive"] }
color-eyre = "*"
open = "*"
ratatui = "*"
serde = { version = "*", features = ["derive"] }
serde_json = "*"
