[package]
name = "shell_template"
version = "0.1.0"
edition = "2021"
publish = false

[dependencies]
nom = "7"
itertools = "0.10"
structopt = "0.3"
