[package]
name = "rcc"
version = "0.1.0"
edition = "2021"
publish = false

[dependencies]
clap = "3"
once_cell = "1"
