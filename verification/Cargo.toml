[package]
name = "snake_multiplayer"
version = "0.1.0"
edition = "2021"
publish = false

[dependencies]
mio = { version = "0.8", features = ["net", "os-poll"] }
rand = "0.8"
sdl2 = "0.35"
