[package]
name = "interactive"
version = "0.1.0"
edition = "2021"
publish = false

[dependencies]
itertools = "*"
linefeed = "*"
nix = { version = "*", features = ["signal"] }
dirs = "*"
try_map = "*"
quick-error = "*"
