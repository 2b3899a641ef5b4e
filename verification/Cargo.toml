[package]
name = "pipemap"
version = "1.2.1"
edition = "2021"
publish = false

[dependencies]
regex = "1"
clap = "4"
ctrlc = "3"
dirs = "*"
flexi_logger = "*"
log = "0.4"
owo-colors = "*"
