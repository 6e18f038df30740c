[package]
name = "meldnafen"
version = "0.1.0"
edition = "2021"
publish = false

[dependencies]
id_tree = "1"
sdl2 = { version = "0.32", default-features = false, features = ["image"] }
serde = { version = "1", features = ["derive"] }
serde_json = "1"
log = "0.4"
env_logger = "0.11"
tempfile = "3"
