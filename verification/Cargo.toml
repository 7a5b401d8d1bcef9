[package]
name = "lox"
version = "0.1.0"
edition = "2021"
publish = false

[dependencies]
inkwell = { version = "=0.11.0", features = ["llvm22-1-no-llvm-linking"] }
