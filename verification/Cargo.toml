[package]
name = "ozz_skeleton"
version = "0.1.0"
edition = "2021"
publish = false

[dependencies]
bimap = "*"
