[package]
name = "ugoku"
version = "0.1.0"
edition = "2021"
publish = false

[dependencies]
generational-arena = "0.2"
glam = "0.29"
