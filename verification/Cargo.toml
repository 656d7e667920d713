[package]
name = "markov_music"
version = "0.1.0"
edition = "2021"
publish = false

[dependencies]
rand = "*"
clap = "*"
toml = "*"
serde = { version = "*", features = ["derive"] }
mpv = "*"
pancurses = "*"
