[package]
name = "unified_diff"
version = "0.1.0"
edition = "2021"

[dependencies]
clap = { version = "=4.6.7", features = ["derive"] }
myers = "=0.0.1"
