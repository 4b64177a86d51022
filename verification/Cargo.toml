[package]
name = "subtitle_ocr"
version = "0.1.0"
edition = "2021"
publish = false

[dependencies]
cast = "*"
image = { version = "*", default-features = false }
