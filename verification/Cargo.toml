[package]
name = "nuzo"
version = "0.1.0"
edition = "2021"
publish = false

[dependencies]
web-time = "*"
egui = "*"
