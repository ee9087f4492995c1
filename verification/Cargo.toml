[package]
name = "mckp_ga"
version = "0.1.0"
edition = "2021"
publish = false

[dependencies]
rand = { version = "0.8", features = ["small_rng"] }
rayon = "1"
clap = { version = "4", features = ["derive"] }
env_logger = "0.10"
log = "0.4"
uuid = { version = "1", features = ["v4"] }
csv = "1"
