[package]
name = "genet"
version = "0.1.0"
edition = "2021"
publish = false

[dependencies]
nalgebra = "0.21"
rand = "0.7"
structopt = "0.3"
