[package]
name = "tailwind_merge"
version = "0.1.0"
edition = "2021"
publish = false

[dependencies]
magnus = "=0.9.3"

[dev-dependencies]
tailwind_fuse = "=0.3.2"
