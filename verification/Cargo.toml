[package]
name = "clean_my_shit"
version = "0.1.0"
edition = "2021"
publish = false

[dependencies]
dirs = "5"
walkdir = "2"
rayon = "1"
resvg = { version = "0.45", default-features = false }
ico = "0.3"
