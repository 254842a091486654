[package]
name = "note"
version = "0.1.0"
edition = "2021"
publish = false

[dependencies]
colored = "2"
dirs = "5"
regex = "1"
structopt = "0.3"
