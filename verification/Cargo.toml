[package]
name = "mack"
version = "0.1.0"
edition = "2021"
publish = false

[dependencies]
anyhow = "1"
clap = { version = "4", features = ["derive"] }
cow-utils = "*"
funcfmt = "*"
id3 = "1"
jwalk = "*"
libc = "0.2"
once_cell = "1"
rayon = "1"
regex = "1"
