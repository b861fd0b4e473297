[package]
name = "lucy_tetris_rs"
version = "0.1.0"
edition = "2021"
publish = false

[dependencies]
rand = "0.8"
rayon = "1"
macroquad = { version = "0.4", default-features = false }
