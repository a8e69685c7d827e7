[package]
name = "dl_vis"
version = "0.1.0"
edition = "2021"
publish = false

[dependencies]
cassowary = "*"
serde = "1"
serde_derive = "1"
toml = "*"
