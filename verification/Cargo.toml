[package]
name = "scout"
version = "0.1.0"
edition = "2021"
publish = false

[dependencies]
unicode-segmentation = "*"
sublime_fuzzy = "*"
