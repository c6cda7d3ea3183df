[package]
name = "ldpc"
version = "0.1.0"
edition = "2021"
publish = false

[dependencies]
sparse-bin-mat = "*"
bigs = "*"
rand = "0.8"
pauli = "*"
serde = { version = "1", features = ["derive"] }
serde_json = "1"
itertools = "*"
sprs = "*"
