[package]
name = "conntop"
version = "0.1.0"
edition = "2021"
publish = false

[dependencies]
anyhow = "1"
clap = { version = "4", features = ["derive"] }
crossterm = "0.25"
log = "0.4"
regex = "1"
tui = "0.19"
