[package]
name = "rsched"
version = "0.1.0"
edition = "2021"
publish = false

[dependencies]
anyhow = "=1.0.104"
aya = "=0.13.1"
clap = { version = "=4.6.7", features = ["derive"] }
libc = "=0.2.191"
num_cpus = "=1.17.0"
regex = "=1.13.1"
