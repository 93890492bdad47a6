[package]
name = "text_mesh"
version = "0.1.0"
edition = "2021"
publish = false

[dependencies]
cosmic-text = "=0.19.0"
skrifa = "=0.44.0"
