[package]
name = "nettle_cases"
version = "0.1.0"
edition = "2021"
publish = false

[dependencies]
ariadne = "=0.6.0"
yansi = "1"
