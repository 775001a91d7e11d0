[package]
name = "hi"
version = "0.1.0"
edition = "2021"
publish = false

[dependencies]
rand = "0.8"
whoami = "1"
libp2p = { version = "0.53", features = ["async-std", "tcp", "noise", "yamux", "gossipsub", "mdns", "request-response", "macros"] }
async-std = { version = "1", features = ["attributes"] }
futures = "0.3"
futures-timer = "3"
async-trait = "0.1"
clap = { version = "4", default-features = false, features = ["std", "derive", "help"] }
dirs = "5"
