[package]
name = "game"
version = "0.1.0"
edition = "2021"
publish = false

[dependencies]
macroquad = "0.4"
noise = "0.9"
serde_json = "1"
