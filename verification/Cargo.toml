[package]
name = "minic"
version = "0.1.0"
edition = "2021"
publish = false

[dependencies]
id-arena = "=2.3.0"
