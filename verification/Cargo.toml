[package]
name = "contaminate"
version = "0.1.0"
edition = "2021"
publish = false

[dependencies]
image = "0.24"
rand = { version = "0.8", features = ["small_rng"] }
rand_distr = "0.4"
serde = { version = "1", features = ["derive"] }
