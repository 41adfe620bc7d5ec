[package]
name = "may_thread"
version = "0.1.0"
edition = "2021"
publish = false

[dependencies]
may = "*"
