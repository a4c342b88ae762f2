[package]
name = "simulation"
version = "0.1.0"
edition = "2021"
publish = false

[dependencies]
pathfinding = "4"
rand = { version = "0.8", features = ["small_rng"] }
