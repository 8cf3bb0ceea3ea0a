[package]
name = "bmls"
version = "0.1.0"
edition = "2021"
publish = false

[dependencies]
fastrand = "*"
itertools = "*"
matrixmultiply = "*"
rayon = "*"
thiserror = "*"
