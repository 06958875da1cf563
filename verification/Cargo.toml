[package]
name = "reflected"
version = "0.1.0"
edition = "2021"
publish = false

[dependencies]
chrono = "=0.4.45"
rand = "=0.8.8"
rust_decimal = "=1.43.0"
syn = "1"
