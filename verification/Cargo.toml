[package]
name = "sigpatch"
version = "0.1.0"
edition = "2021"
publish = false

[dependencies]
log = "=0.4.34"
simplelog = "=0.12.2"
thiserror = "=2.0.21"
windows-registry = "=0.100.0"
