[package]
name = "duvet"
version = "0.1.0"
edition = "2021"
publish = false

[dependencies]
alsa = "*"
hound = "3"
termion = "*"
