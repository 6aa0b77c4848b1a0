[package]
name = "cgmem"
version = "0.1.0"
edition = "2021"
publish = false

[dependencies]
ratatui = "*"
crossterm = "*"
clap = { version = "*", features = ["derive"] }
tui-tree-widget = "*"
