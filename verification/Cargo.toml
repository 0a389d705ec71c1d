[package]
name = "uniswap_v3_math"
version = "0.1.0"
edition = "2021"
publish = false

[dependencies]
alloy = { version = "*", default-features = false }
