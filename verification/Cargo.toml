[package]
name = "kronark-node-parser"
version = "0.1.0"
edition = "2021"
publish = false

[dependencies]
itertools = "*"
clap = { version = "4", features = ["derive"] }
clap-stdin = "*"
crossterm = "*"
ratatui = "*"
