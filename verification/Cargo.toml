[package]
name = "nestcss"
version = "0.1.0"
edition = "2021"
publish = false

[dependencies]
codemap = "=0.1.3"
num-bigint = "=0.4.8"
num-rational = "=0.4.2"
