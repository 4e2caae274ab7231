[package]
name = "ketch"
version = "0.1.0"
edition = "2021"
publish = false

[dependencies]
getopt_rs = "*"
lines_from_file = "*"
see_directory = "*"
serde_json = "*"
