[package]
name = "neftodng"
version = "0.1.0"
edition = "2021"
publish = false

[dependencies]
rawler = "0.7"
walkdir = "2"
rayon = "1"
num_cpus = "1"
async-channel = "2"
gtk4 = "*"
libadwaita = "*"
