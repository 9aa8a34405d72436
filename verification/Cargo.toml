[package]
name = "script_picker"
version = "0.1.0"
edition = "2021"
publish = false

[dependencies]
serde_json = "*"
ratatui = "*"
crossterm = "*"
color-eyre = "*"
