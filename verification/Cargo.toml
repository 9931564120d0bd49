[package]
name = "den_scan"
version = "0.1.0"
edition = "2021"
publish = false

[dependencies]
ignore = "*"
libloading = "*"
proc-macro2 = "*"
