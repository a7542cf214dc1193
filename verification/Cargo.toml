[package]
name = "compiler"
version = "0.1.0"
edition = "2021"
publish = false

[dependencies]
fxhash = "0.2.1"
inkwell = { version = "0.5.0", features = ["llvm18-0"] }
libc = "0.2"
