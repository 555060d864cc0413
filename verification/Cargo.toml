[package]
name = "acteur"
version = "0.1.0"
edition = "2021"
publish = false

[dependencies]
dashmap = "*"
futures = "0.3"
async-std = "1"
