[package]
name = "local_transport"
version = "0.1.0"
edition = "2021"
publish = false

[dependencies]
if-addrs = "*"
indicatif = "*"
mdns-sd = "*"
rand = "*"
