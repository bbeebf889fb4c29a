[package]
name = "capnpc_elm"
version = "0.1.0"
edition = "2021"
publish = false

[dependencies]
capnp = "*"
heck = "*"
anyhow = "*"
