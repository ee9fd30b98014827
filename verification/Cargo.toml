[package]
name = "minidump_writer"
version = "0.1.0"
edition = "2021"
publish = false

[dependencies]
minidump-common = "=0.27.0"

[dev-dependencies]
scroll = "=0.13.0"
