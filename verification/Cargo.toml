[package]
name = "fast_mass_spring"
version = "0.1.0"
edition = "2021"
publish = false

[dependencies]
nalgebra = "0.32"
three-d = { version = "0.16", features = ["egui-gui"] }
