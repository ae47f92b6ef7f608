[package]
name = "rlisp"
version = "0.1.0"
edition = "2021"
publish = false

[dependencies]
rustyline = "=19.0.0"
