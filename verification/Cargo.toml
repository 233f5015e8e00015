[package]
name = "boolean_nets"
version = "0.1.0"
edition = "2021"
publish = false

[dependencies]
core_affinity = "*"
fastrand = "*"
macroquad = "*"
num_cpus = "*"
