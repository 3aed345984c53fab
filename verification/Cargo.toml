[package]
name = "brick_games"
version = "0.1.0"
edition = "2021"
publish = false

[dependencies]
rand = "=0.10.3"
sdl2 = "=0.38.0"
app_dirs = "=1.2.1"
