[package]
name = "sapper"
version = "0.1.0"
edition = "2021"
publish = false

[dependencies]
typemap = "=0.3.3"
mime_guess = "=2.0.5"
hyper = "=0.10.16"
route-recognizer = "0.1"
