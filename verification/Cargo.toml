[package]
name = "ggez-goodies"
version = "0.1.0"
edition = "2021"
publish = false

[dependencies]
rand = "0.7"
nalgebra-glm = { version = "0.19", default-features = false, features = ["std"] }
euclid = "0.22"
tiled = { version = "0.9", default-features = false }
anymap = "0.12"
rayon = "1"
serde = { version = "1", features = ["derive"] }
serde_json = "1"
