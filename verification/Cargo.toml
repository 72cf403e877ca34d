[package]
name = "isochron"
version = "0.1.1"
edition = "2021"
publish = false

[dependencies]
time = "0.3"
thiserror = "2"
