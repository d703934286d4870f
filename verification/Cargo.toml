[package]
name = "fovea-io"
version = "0.1.0"
edition = "2021"
publish = false

[dependencies]
fovea = "*"
jpeg-decoder = "0.3"
jpeg-encoder = "*"
thiserror = "2"
