[package]
name = "chonker"
version = "0.1.0"
edition = "2021"
publish = false

[dependencies]
ropey = "=1.6.1"
libc = "=0.2.191"
arboard = { version = "=3.7.0", default-features = false }
dirs = "=5.0.1"
chrono = { version = "=0.4.45", default-features = false, features = ["clock", "std"] }
nucleo = "=0.5.0"
crossterm = "=0.28.1"
image = { version = "=0.25.10", default-features = false, features = ["png"] }
base64 = "=0.22.1"
grid = "0.14"
rstar = "0.12"
euclid = "0.22"
