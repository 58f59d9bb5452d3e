[package]
name = "findme"
version = "0.1.0"
edition = "2021"

[dependencies]
clap = "3"
dirs = "*"
fuzzy-matcher = "0.3"
walkdir = "2"
