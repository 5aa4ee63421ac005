[package]
name = "minesweeper_plugin"
version = "0.1.0"
edition = "2021"
publish = false

[dependencies]
bevy = { version = "0.13", default-features = false }
bevy_utils = "0.13"
rand = "0.8"
