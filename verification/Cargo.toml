[package]
name = "eternal_terminal"
version = "0.1.0"
edition = "2021"
publish = false

[dependencies]
crossterm = "=0.29.0"
crypto_secretbox = "=0.1.1"
getrandom = "=0.4.3"
libc = "=0.2.191"
nix = { version = "=0.31.3", features = ["fs", "process", "term", "user"] }
thiserror = "=2.0.21"
tokio = { version = "=1.54.1", features = ["full"] }
zeroize = "=1.9.1"

[dev-dependencies]
buffa = "=0.9.2"
prost = "=0.14.4"
