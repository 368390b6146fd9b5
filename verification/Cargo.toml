[package]
name = "telemetry_calculus"
version = "0.1.0"
edition = "2021"
publish = false

[dependencies]
nalgebra = "*"
serial = "*"
piston_window = "*"
