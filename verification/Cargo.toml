[package]
name = "tiger"
version = "0.1.0"
edition = "2021"
publish = false

[dependencies]
clap = "2"
nom = "7"
nom_locate = "4"
