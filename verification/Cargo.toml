[package]
name = "sustlang"
version = "0.1.0"
edition = "2021"
publish = false

[dependencies]
bytebuffer = "2"
rand = "0.8"
