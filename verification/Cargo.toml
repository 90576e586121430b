[package]
name = "cortado"
version = "0.1.0"
edition = "2021"

[dependencies]
dirs = "5"
rustyline = "10"
