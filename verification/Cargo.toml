[package]
name = "sieve"
version = "0.1.0"
edition = "2021"
publish = false

[dependencies]
chrono = "0.4"
clap = { version = "4", features = ["derive"] }
env_logger = "0.11"
flate2 = "1"
indicatif = "0.17"
log = "0.4"
num-format = "0.4"
num_cpus = "1"
rayon = "1"
tempfile = "3"
term_size = "0.3"
thiserror = "1"
walkdir = "2"
