[package]
name = "litclock"
version = "0.1.0"
edition = "2021"
publish = false

[dependencies]
chrono = "*"
csv = "*"
multimap = "*"
rand = "*"
serde = { version = "*", features = ["derive"] }
termcolor = "*"
textwrap = "*"
