[package]
name = "vg_core"
version = "0.1.0"
edition = "2021"
publish = false

[dependencies]
structopt = "0.3"
notify = "4.0"
