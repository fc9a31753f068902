[package]
name = "dirdiff"
version = "0.1.0"
edition = "2021"
publish = false

[dependencies]
md5 = "0.7"
rayon = "1"
walkdir = "2"
