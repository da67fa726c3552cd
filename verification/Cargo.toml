[package]
name = "sqlly-textbox"
version = "0.1.0"
edition = "2021"
publish = false

[dependencies]
unicode-segmentation = "=1.13.3"
smallvec = "=1.16.4"
