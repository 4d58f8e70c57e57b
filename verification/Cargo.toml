[package]
name = "rlay"
version = "0.1.0"
edition = "2021"
publish = false

[dependencies]
bitflags = "2"
macroquad = "0.4"
