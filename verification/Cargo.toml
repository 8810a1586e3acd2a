[package]
name = "douyin_config"
version = "0.1.0"
edition = "2021"
publish = false

[dependencies]
image = "*"
walkdir = "*"
zip = "*"
open = "*"
