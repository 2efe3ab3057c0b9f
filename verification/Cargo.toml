[package]
name = "blang"
version = "0.1.0"
edition = "2021"
publish = false

[dependencies]
rustc-hash = "2"
ux = "*"
ariadne = "*"
apple-codesign = { version = "*", default-features = false }
