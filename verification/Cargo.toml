[package]
name = "plb"
version = "0.1.0"
edition = "2021"
publish = false

[dependencies]
anyhow = "1"
time = "0.3"
uuid = "1"
