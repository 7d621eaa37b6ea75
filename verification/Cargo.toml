[package]
name = "spark_gap"
version = "0.1.0"
edition = "2021"
publish = false

[dependencies]
ahash = "0.8"
hashbrown = "*"
glam = "*"
rand = "0.8"
russimp = "*"
