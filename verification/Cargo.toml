[package]
name = "proof_of_sql"
version = "0.1.0"
edition = "2021"
publish = false

[dependencies]
curve25519-dalek = "=4.1.3"
arrow = { version = "53", default-features = false }

[dev-dependencies]
rand = "=0.8.8"
rand_core = "=0.6.4"
