[package]
name = "biscuiting_lib"
version = "0.1.0"
edition = "2021"
publish = false

[dependencies]
bit-set = "*"
image = "*"
imageproc = "*"
js-sys = "*"
