[package]
name = "lofty"
version = "0.1.0"
edition = "2021"
publish = false

[dependencies]
mp4ameta = "0.9"
