[package]
name = "edamame"
version = "0.1.0"
edition = "2021"
publish = false

[dependencies]
anyhow = "=1.0.104"
arboard = { version = "=3.7.0", default-features = false }
ropey = "=1.6.1"
tracing = "=0.1.44"
unicode-segmentation = "=1.13.3"
unicode-width = "=0.2.3"
