[package]
name = "objective_shell"
version = "0.1.0"
edition = "2021"
publish = false

[dependencies]
opener = "*"
rustyline = "*"
