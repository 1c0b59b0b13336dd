[package]
name = "fbdelay"
version = "0.1.0"
edition = "2021"
publish = false

[dependencies]
sample = "=0.10.0"
portaudio = "=0.8.0"
