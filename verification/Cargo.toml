[package]
name = "table_grid"
version = "0.1.0"
edition = "2021"
publish = false

[dependencies]
anyhow = "1"
image = "0.24"
leptess = "0.14"
