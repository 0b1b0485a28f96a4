[package]
name = "hekate_sim"
version = "0.1.0"
edition = "2021"
publish = false

[dependencies]
rand_chacha = "*"
glam = "*"
thiserror = "*"
