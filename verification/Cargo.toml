[package]
name = "replay_bridge"
version = "0.1.0"
edition = "2021"
publish = false

[dependencies]
boxcars = "0.12"
serde_json = "1"
