[package]
name = "zone_sequencer"
version = "0.1.0"
edition = "2021"
publish = false

[dependencies]
opencv = "*"
sdl2 = "*"
