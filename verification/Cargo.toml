[package]
name = "minecord"
version = "0.1.0"
edition = "2021"
publish = false

[dependencies]
arrayvec = "0.5"
rand = "0.7"
structopt = "0.3"
