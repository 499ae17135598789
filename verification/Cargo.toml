[package]
name = "microface"
version = "0.1.0"
edition = "2021"
publish = false

[dependencies]
embedded-graphics = "0.8"
embedded-graphics-core = "0.4"
embedded-layout = "0.4"
embedded-text = "0.7"
fontdue = "0.9"
