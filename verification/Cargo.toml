[package]
name = "sqlly-datatable"
version = "0.1.0"
edition = "2021"
publish = false

[dependencies]
web-time = "1.1.0"
