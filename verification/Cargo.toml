[package]
name = "mini_dbg"
version = "0.1.0"
edition = "2021"
publish = false

[dependencies]
nix = { version = "*", features = ["ptrace", "personality", "signal", "process", "fs"] }
gimli = "*"
object = "*"
memmap2 = "*"
addr2line = "*"
