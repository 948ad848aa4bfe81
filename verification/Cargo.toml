[package]
name = "iu5years"
version = "0.1.0"
edition = "2021"
publish = false

[dependencies]
termion = "1"
