[package]
name = "physics_sandbox"
version = "0.1.0"
edition = "2021"
publish = false

[dependencies]
macroquad = { version = "0.4", default-features = false }
rayon = "1"
serde = { version = "1", features = ["derive"] }
toml = "0.8"
