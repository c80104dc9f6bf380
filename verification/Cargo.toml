[package]
name = "dupfind"
version = "0.1.0"
edition = "2021"
publish = false

[dependencies]
md5 = "=0.7.0"
prettytable-rs = { version = "=0.10.0", default-features = false }
rayon = "=1.12.0"
unicode-width = "=0.1.14"
walkdir = "=2.5.0"
