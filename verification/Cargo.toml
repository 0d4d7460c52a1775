[package]
name = "pixi"
version = "0.1.0"
edition = "2021"
publish = false

[dependencies]
rattler_conda_types = "*"
