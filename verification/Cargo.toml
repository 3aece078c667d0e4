[package]
name = "extended-isolation-forest"
version = "0.2.3"
edition = "2021"
publish = false

[dependencies]
num-traits = "0.2"
rand = "0.8"
rand_distr = "0.4"
serde = { version = "1", features = ["derive"] }
