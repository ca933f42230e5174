[package]
name = "mprove_ristretto"
version = "0.1.0"
edition = "2021"
publish = false

[dependencies]
curve25519-dalek = "=3.2.1"
rand = "=0.7.3"
sha3 = "=0.9.1"
structopt = "=0.3.26"

[dev-dependencies]
sha2 = "=0.9.9"
