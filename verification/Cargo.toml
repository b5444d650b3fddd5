[package]
name = "cadmium"
version = "0.1.0"
edition = "2021"
publish = false

[dependencies]
geo = "*"
num-complex = "*"
serde = { version = "*", features = ["derive"] }
truck-meshalgo = "*"
truck-modeling = "*"
truck-stepio = "*"
