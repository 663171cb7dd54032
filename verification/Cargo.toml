[package]
name = "simulated_annealing"
version = "0.1.0"
edition = "2021"
publish = false

[dependencies]
rand = "=0.9.5"
clap = { version = "=4.6.7", features = ["derive"] }
plotters = { version = "=0.3.7", default-features = false, features = ["ab_glyph", "bitmap_backend", "bitmap_encoder", "line_series"] }
