[package]
name = "rusteriser"
version = "0.1.0"
edition = "2021"
publish = false

[dependencies]
cgmath = "*"
env_logger = "*"
image = "*"
log = "*"
sdl2 = "*"
tobj = "*"
