[package]
name = "tere"
version = "1.5.1"
edition = "2021"
publish = false

[dependencies]
clap = { version = "4", features = ["cargo"] }
crokey = "*"
crossterm = "*"
dirs = "*"
regex = "1"
serde = "1"
serde_json = "1"
textwrap = "*"
