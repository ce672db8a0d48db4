[package]
name = "naming_lib"
version = "0.1.0"
edition = "2021"

[dev-dependencies]
regex = "1"
