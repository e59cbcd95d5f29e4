[package]
name = "particle_trails"
version = "0.1.0"
edition = "2021"
publish = false

[dependencies]
rand_chacha = "*"
md5 = "*"
