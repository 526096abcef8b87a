[package]
name = "bl602wifi"
version = "0.1.0"
edition = "2021"
publish = false

[dependencies]
embedded-time = "0.12"
smoltcp = { version = "0.7", default-features = false, features = ["ethernet", "proto-ipv4", "socket-tcp", "socket-udp"] }
riscv = "0.6"
riscv-rt = "0.8"
