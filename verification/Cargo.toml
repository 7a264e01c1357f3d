[package]
name = "ripcalc"
version = "0.1.0"
edition = "2021"
publish = false

[dependencies]
csv = "1"
getopts = "0.2"
nix = { version = "*", features = ["net", "fs"] }
