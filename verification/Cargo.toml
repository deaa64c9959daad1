[package]
name = "bums"
version = "0.1.0"
edition = "2021"
publish = false

[dependencies]
z3 = "=0.10.0"
clap = { version = "=4.6.7", features = ["derive"] }
