[package]
name = "catalog_core"
version = "0.1.0"
edition = "2021"
publish = false

[dependencies]
crossterm = "*"
log = "*"
ratatui = "*"
