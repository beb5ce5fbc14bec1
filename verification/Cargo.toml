[package]
name = "rdom-virtualtable"
version = "0.1.0"
edition = "2021"
publish = false

[dependencies]
rdom-tui = "=0.3.14"

[dev-dependencies]
crossterm = "0.28"
