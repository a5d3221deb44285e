[package]
name = "convolver"
version = "0.1.0"
edition = "2021"
publish = false

[dependencies]
clap = { version = "4", features = ["derive"] }
fast-math = "0.1"
palette = "0.7"
png = "0.17"
rayon = "1"
