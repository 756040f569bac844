[package]
name = "tinkervm"
version = "0.1.0"
edition = "2021"
publish = false

[dependencies]
dashmap = "6"
thiserror = "2"
