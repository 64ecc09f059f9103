[package]
name = "merge_physics"
version = "0.1.0"
edition = "2021"

[dependencies]
bevy = { version = "0.13", default-features = false }
rand = "0.8"
