[package]
name = "physmem"
version = "0.1.0"
edition = "2021"
publish = false

[dependencies]
armv7 = "=0.1.0"
r0 = "=1.0.0"
