[package]
name = "newbound_agent"
version = "0.1.0"
edition = "2021"
publish = false

[dependencies]
ndata = "*"
flowlang = "*"
ureq = "2"
