[package]
name = "outbreak_sim"
version = "0.1.0"
edition = "2021"
publish = false

[dependencies]
bincode = "1"
csv = "*"
fast_paths = "*"
rand = "*"
serde = { version = "*", features = ["derive"] }
serde_json = "*"
structopt = "0.3"
