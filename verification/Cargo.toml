[package]
name = "update_mapped"
version = "0.1.0"
edition = "2021"
publish = false

[dependencies]
clap = "2"
lscolors = { version = "*", default-features = false, features = ["nu-ansi-term"] }
nu-ansi-term = "*"

[dev-dependencies]
tempfile = "3"
