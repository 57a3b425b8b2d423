[package]
name = "mic_spectrum"
version = "0.1.0"
edition = "2021"
publish = false

[dependencies]
cpal = "0.13"
bevy = { version = "0.7", default-features = false, features = ["bevy_winit", "render", "x11"] }
bevy_prototype_lyon = "0.5"
