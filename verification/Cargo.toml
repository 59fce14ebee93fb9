[package]
name = "logos"
version = "0.1.0"
edition = "2021"
publish = false

[dependencies]
quick-xml = "*"
xz2 = "*"
ratatui = "*"
crossterm = "*"
tui-big-text = "*"
dirs = "*"
env_logger = "*"
log = "*"
color-eyre = "*"
thiserror = "*"
