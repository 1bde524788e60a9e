[package]
name = "puzterm"
version = "0.1.0"
edition = "2021"
publish = false

[dependencies]
encoding = "0.2"
nom = "4"
stopwatch = "*"
termion = "1.5"
