[package]
name = "rax25kb"
version = "0.1.0"
edition = "2021"
publish = false

[dependencies]
chrono = "*"
ctrlc = "*"
serialport = { version = "*", default-features = false }
