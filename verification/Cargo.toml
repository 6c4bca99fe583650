[package]
name = "charm_internal"
version = "0.1.0"
edition = "2021"
publish = false

[dependencies]
piston_window = "*"
