[package]
name = "mca"
version = "2.1.0"
edition = "2021"
publish = false

[dependencies]
flate2 = "1"
lz4-java-wrc = "*"
thiserror = "2"

[dev-dependencies]
rayon = "1"
