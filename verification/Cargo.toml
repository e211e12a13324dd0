[package]
name = "kaleidoscope"
version = "0.1.0"
edition = "2021"
publish = false

[dependencies]
inkwell = { version = "0.4", features = ["llvm15-0"] }
