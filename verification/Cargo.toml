[package]
name = "gtfo_logger"
version = "0.1.0"
edition = "2021"
publish = false

[dependencies]
serde = { version = "=1.0.229", features = ["derive"] }
serde_json = "=1.0.154"
serde_yaml = "=0.9.34"
ron = "=0.8.1"
indexmap = "=2.14.2"
itertools = "=0.13.0"
strum = { version = "=0.26.3", features = ["derive"] }
egui = { version = "=0.31.1", default-features = false, features = ["default_fonts"] }
directories = "5"
