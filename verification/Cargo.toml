[package]
name = "slate_framework"
version = "0.1.0"
edition = "2021"
publish = false

[dependencies]
unicode-segmentation = "1"
smallvec = "1"
smol = "2"
