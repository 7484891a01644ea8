[package]
name = "random_lattice_models"
version = "0.1.0"
edition = "2021"
publish = false

[dependencies]
rand = "*"
rayon = "*"
clap = { version = "*", features = ["derive"] }
image = { version = "*", default-features = false, features = ["png"] }
