[package]
name = "media_player"
version = "0.1.0"
edition = "2021"
publish = false

[dependencies]
rodio = { version = "*", default-features = false, features = ["wav"] }
plotters = "0.3"
gtk = "0.9"
