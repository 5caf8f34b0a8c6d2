[package]
name = "vole_arc"
version = "0.1.0"
edition = "2021"
publish = false

[dependencies]
sha3 = "=0.10.9"
subtle = "=2.6.1"
zeroize = "=1.9.1"
rand_core = { version = "=0.6.4", features = ["getrandom"] }
mayo = "=0.1.0"
