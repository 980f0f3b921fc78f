[package]
name = "pcg_rand"
version = "0.13.0"
edition = "2021"
publish = false

[dependencies]
byteorder = "1"
num-traits = "0.2"
rand = "0.8"
rand_core = "0.6"
serde = { version = "1", features = ["derive"] }
serde_json = "1"
