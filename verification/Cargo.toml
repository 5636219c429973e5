[package]
name = "halo2_jwt"
version = "0.1.0"
edition = "2021"
publish = false

[dependencies]
sha2 = "0.10"
log = "0.4"
env_logger = "0.10"
