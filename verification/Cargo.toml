[package]
name = "p8bundle"
version = "0.1.0"
edition = "2021"
publish = false

[dependencies]
ctrlc = { version = "3", features = ["termination"] }
hotwatch = "0.4"
structopt = "0.3"
