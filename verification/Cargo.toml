[package]
name = "poseidon_permutation"
version = "0.1.0"
edition = "2021"
publish = false

[dependencies]
bulletproofs = { version = "=4.0.0", features = ["yoloproofs"] }
curve25519-dalek-ng = "4"
sha2 = "0.9"

[dev-dependencies]
merlin = "3"
