[package]
name = "xor"
version = "0.1.0"
edition = "2021"
publish = false

[dependencies]
hex = "0.4"
clap = "2"
env_logger = "0.4"
log = "0.3"
number_prefix = "0.2"
filesystem = "0.4"
