[package]
name = "crc32tool"
version = "0.1.0"
edition = "2021"
publish = false

[dependencies]
crc32fast = "1"
clap = { version = "4", features = ["derive"] }
glob = "0.3"
indicatif = "0.17"
num_cpus = "1"
raw-cpuid = "11"
rayon = "1"
walkdir = "2"
