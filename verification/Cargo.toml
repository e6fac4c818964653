[package]
name = "ysos"
version = "0.1.0"
edition = "2021"
publish = false

[dependencies]
chrono = { version = "=0.4.45", default-features = false }
crossbeam-queue = { version = "=0.3.14", default-features = false, features = ["alloc"] }
pc-keyboard = "=0.7.0"
log = "=0.4.35"
spin = "=0.9.9"
x86_64 = { version = "=0.14.13", default-features = false, features = ["instructions"] }
rand = { version = "=0.8.8", default-features = false }
rand_chacha = { version = "=0.3.1", default-features = false }
