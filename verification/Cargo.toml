[package]
name = "shell_grunt2"
version = "0.1.0"
edition = "2021"
publish = false

[dependencies]
clap = "2"
ctrlc = "3"
floating-duration = "*"
lazy_static = "1"
libc = "0.2"
lua = "*"
notify = "4"
pathdiff = "0.2"
regex = "1"
self_update = "*"
sha1 = "0.6"
term = "0.7"
time = "0.1"
