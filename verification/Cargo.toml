[package]
name = "tilegame"
version = "0.1.0"
edition = "2021"
publish = false

[dependencies]
bevy = { version = "0.13", default-features = false }
bresenham = "0.1"
noise = { version = "0.8", default-features = false }
strum = "0.26"
strum_macros = "0.26"
