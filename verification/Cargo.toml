[package]
name = "partyarty"
version = "0.1.0"
edition = "2021"
publish = false

[dependencies]
hibitset = { version = "0.6", default-features = false }
rand = "0.7"
glam = "0.9"
clap = "2"
image = "0.23"
rayon = "1"
sdl2 = "0.34"
