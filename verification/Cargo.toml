[package]
name = "space_battle"
version = "0.1.0"
edition = "2021"
publish = false

[dependencies]
piston2d-graphics = "*"
time = "0.1"
