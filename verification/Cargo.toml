[package]
name = "borrow_analysis"
version = "0.1.0"
edition = "2021"
publish = false

[dependencies]
datafrog = "1"
