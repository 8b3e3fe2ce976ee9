[package]
name = "replace_bgm"
version = "0.1.0"
edition = "2021"
publish = false

[dependencies]
ffmpeg-next = "*"
itertools = "*"
rand = "0.8"
tempfile = "3"
which = "*"
