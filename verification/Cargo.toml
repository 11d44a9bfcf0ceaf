[package]
name = "rrt"
version = "0.1.0"
edition = "2021"
publish = false

[dependencies]
rand = "=0.8.8"
kiddo = "=6.3.0"
fixed = "=1.30.0"
