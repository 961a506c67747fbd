[package]
name = "gn_starlark"
version = "0.1.0"
edition = "2021"
publish = false

[dependencies]
starlark = "*"
either = "*"
thiserror = "*"
allocative = "*"
anyhow = "*"
