[package]
name = "hash_arithmetization"
version = "0.1.0"
edition = "2021"
publish = false

[dependencies]
plonky2 = "=0.1.4"
plonky2_monolith = "=0.1.0"
log = "=0.4.34"
env_logger = "=0.11.11"
