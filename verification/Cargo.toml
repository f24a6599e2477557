[package]
name = "cold_string"
version = "0.1.0"
edition = "2021"
publish = false

[dependencies]
sptr = "=0.3.2"
serde = "=1.0.229"
fastrand = "=2.5.0"
rkyv = "0.8"
