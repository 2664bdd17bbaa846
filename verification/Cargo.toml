[package]
name = "bootlick"
version = "0.1.0"
edition = "2021"
publish = false

[dependencies]
sequential-storage = "*"
embedded-storage-async = "*"
cortex-m = "*"
