[package]
name = "angora"
version = "0.1.0"
edition = "2021"
publish = false

[dependencies]
byteorder = "1"
chrono = "0.4"
ctrlc = "3"
itertools = "*"
libc = "0.2"
log = "0.4"
pretty_env_logger = "*"
priority-queue = "*"
rand = "*"
wait-timeout = "0.2"
