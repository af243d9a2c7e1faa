[package]
name = "jsh"
version = "0.1.0"
edition = "2021"
publish = false

[dependencies]
is_executable = "1"
nix = { version = "*", features = ["signal", "process", "term", "fs"] }
rustyline = "*"
thiserror = "2"
