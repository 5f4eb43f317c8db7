[package]
name = "forge_egui"
version = "0.1.0"
edition = "2021"
publish = false

[dependencies]
pulldown-cmark = { version = "=0.13.6", default-features = false }
egui = "=0.35.0"
vt100 = "=0.16.2"
