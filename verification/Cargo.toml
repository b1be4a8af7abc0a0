[package]
name = "voice_mixer"
version = "0.1.0"
edition = "2021"
publish = false

[dependencies]
cpal = "=0.15.3"
midir = "=0.9.1"
rand = "0.8"
