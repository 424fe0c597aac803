[package]
name = "rgit"
version = "0.1.0"
edition = "2021"
publish = false

[dependencies]
chrono = "0.4"
clap = { version = "4", features = ["derive"] }
colored = "2"
flate2 = "1"
rust-ini = "*"
sha1 = "0.10"
