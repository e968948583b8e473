[package]
name = "ralias"
version = "0.1.0"
edition = "2021"
publish = false

[dependencies]
regex = "*"
colored = "*"
clap = { version = "*", features = ["derive"] }
clap_complete = "*"
home = "*"
log = "*"
simple_logger = "*"
