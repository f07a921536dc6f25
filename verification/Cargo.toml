[package]
name = "pandemic_sim"
version = "0.1.0"
edition = "2021"
publish = false

[dependencies]
rand = "=0.7.3"
nalgebra = "=0.21.1"
glium = "=0.23.0"
glium_text = "=0.14.0"
serde = { version = "=1.0.229", features = ["derive"] }
toml = "=0.5.11"
