[package]
name = "rust3d"
version = "0.1.0"
edition = "2021"
publish = false

[dependencies]
cairo-rs = "0.4"
gio = "0.4"
gtk = "0.4"
scan-rules = "0.2"
