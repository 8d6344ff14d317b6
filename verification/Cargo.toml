[package]
name = "avr_sim"
version = "0.1.0"
edition = "2021"
publish = false

[dependencies]
byteorder = "1"
object = { version = "*", default-features = false, features = ["read", "write", "std"] }
clap = "2"
libc = "0.2"
lit = "*"
simavr-sim = "*"
simavr-sys = "*"
tempfile = "3"
