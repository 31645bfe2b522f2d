[package]
name = "fortis"
version = "0.1.0"
edition = "2021"
publish = false

[dependencies]
sha2 = "=0.10.9"
ml-kem = { version = "=0.3.4", default-features = false }
object = "=0.40.0"
