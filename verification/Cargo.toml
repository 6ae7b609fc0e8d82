[package]
name = "gemmkit"
version = "0.1.0"
edition = "2021"
publish = false

[dependencies]
arbitrary = { version = "1", features = ["derive"] }
half = "2"
num-complex = "0.4"
raw-cpuid = "11"
