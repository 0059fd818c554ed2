[package]
name = "ascii_bros"
version = "0.1.0"
edition = "2021"
publish = false

[dependencies]
crossterm = "*"
itertools = "*"
