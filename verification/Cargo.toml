[package]
name = "lumen_runtime"
version = "0.1.0"
edition = "2021"
publish = false

[dependencies]
hashbrown = "*"
num-bigint = "*"
num-traits = "*"
