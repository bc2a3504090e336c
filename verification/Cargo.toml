[package]
name = "raytracer"
version = "0.1.0"
edition = "2021"
publish = false

[dependencies]
clap = { version = "4", features = ["derive"] }
eframe = { version = "0.20", default-features = false, features = ["glow"] }
egui = { version = "0.20", default-features = false }
image = { version = "0.24", default-features = false, features = ["jpeg", "png"] }
num_cpus = "1"
rand = "0.8"
rand_pcg = "0.3"
threadpool = "1"
