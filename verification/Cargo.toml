[package]
name = "motd"
version = "0.1.0"
edition = "2021"
publish = false

[dependencies]
hostport = "*"
resolve = "*"
rust_mc_proto = "*"
