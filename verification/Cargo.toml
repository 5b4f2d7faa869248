[package]
name = "path_router"
version = "0.1.0"
edition = "2021"
publish = false

[dev-dependencies]
route-recognizer = "=0.3.1"
