[package]
name = "caligrama"
version = "0.3.1"
edition = "2021"
publish = false

[dependencies]
image = { version = "0.25", default-features = false, features = ["png", "jpeg", "gif", "bmp", "webp"] }
unicode-segmentation = "1"
pyo3 = { version = "0.23", features = ["abi3-py39", "extension-module"] }
